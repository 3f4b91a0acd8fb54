//! Paths inside an archive: their components, and the normalization that
//! moves `/etc` below `/usr` and filters out what lies elsewhere.

use crate::failure::ErrorKind;
use crate::text::{has_prefix, str_eq};
use camino::{Utf8Component, Utf8Path, Utf8PathBuf};
use vstd::prelude::*;

verus! {

/// One component of a path.
#[derive(Debug, Clone, PartialEq, Eq)]
pub enum PathPart {
    /// A Windows path prefix such as `C:`.
    Prefix,
    /// The root directory.
    RootDir,
    /// The current directory, `.`.
    CurDir,
    /// The parent directory, `..`.
    ParentDir,
    /// An ordinary name.
    Normal(String),
}

/// The mathematical content of a [`PathPart`].
pub enum PartView {
    Prefix,
    RootDir,
    CurDir,
    ParentDir,
    Normal(Seq<char>),
}

impl View for PathPart {
    type V = PartView;

    open spec fn view(&self) -> PartView {
        match self {
            PathPart::Prefix => PartView::Prefix,
            PathPart::RootDir => PartView::RootDir,
            PathPart::CurDir => PartView::CurDir,
            PathPart::ParentDir => PartView::ParentDir,
            PathPart::Normal(s) => PartView::Normal(s@),
        }
    }
}

/// The contents of a sequence of path parts.
pub open spec fn part_views(parts: Seq<PathPart>) -> Seq<PartView> {
    parts.map_values(|p: PathPart| p@)
}

/// The components that `camino::Utf8Path::components` yields for a path text.
pub uninterp spec fn components_of(path: Seq<char>) -> Seq<PartView>;

/// What holds of every component sequence that a path text has: only its
/// first component can be other than a name or `..`, and a name is not
/// empty and holds no separator.
pub open spec fn well_formed_components(parts: Seq<PartView>) -> bool {
    forall|i: int|
        0 <= i < parts.len() ==> match #[trigger] parts[i] {
            PartView::Normal(name) => name.len() > 0 && !name.contains('/'),
            PartView::ParentDir => true,
            _ => i == 0,
        }
}

/// `camino::Utf8Path::components`, each component turned into a [`PathPart`].
/// The contract names the sequence and says that it is well formed as the
/// paths of a Unix system are: repeated separators and inner `.` never show
/// up as components, and the root and a leading `.` only come first.
#[verifier::external_body]
fn path_components(path: &str) -> (parts: Vec<PathPart>)
    ensures
        part_views(parts@) == components_of(path@),
        well_formed_components(part_views(parts@)),
{
    Utf8Path::new(path).components().map(|c| match c {
        Utf8Component::Prefix(_) => PathPart::Prefix,
        Utf8Component::RootDir => PathPart::RootDir,
        Utf8Component::CurDir => PathPart::CurDir,
        Utf8Component::ParentDir => PathPart::ParentDir,
        Utf8Component::Normal(name) => PathPart::Normal(name.to_string()),
    }).collect()
}

/// A path text extended by one more path text: an absolute extension takes
/// the place of what was there, any other is appended, after a separator
/// where the text so far does not end in one.
pub open spec fn pushed(buf: Seq<char>, part: Seq<char>) -> Seq<char> {
    if part.len() > 0 && part[0] == '/' {
        part
    } else if buf.len() > 0 && buf.last() != '/' {
        buf + seq!['/'] + part
    } else {
        buf + part
    }
}

/// `camino::Utf8PathBuf::push` on the path held in `buf`, for Unix paths.
#[verifier::external_body]
fn path_push(buf: String, part: &str) -> (r: String)
    ensures
        r@ == pushed(buf@, part@),
{
    let mut path = Utf8PathBuf::from(buf);
    path.push(part);
    path.into_string()
}

/// Whether two path texts have the same components.
pub open spec fn same_path(a: Seq<char>, b: Seq<char>) -> bool {
    components_of(a) == components_of(b)
}

/// Whether the components of `base` are the first components of `path`.
pub open spec fn path_under(path: Seq<char>, base: Seq<char>) -> bool {
    components_of(base).is_prefix_of(components_of(path))
}

/// Equality of `camino::Utf8Path` values: two paths are equal exactly when
/// their component sequences are.
#[verifier::external_body]
pub(crate) fn paths_equal(a: &str, b: &str) -> (r: bool)
    ensures
        r == same_path(a@, b@),
{
    Utf8Path::new(a) == Utf8Path::new(b)
}

/// `camino::Utf8Path::strip_prefix`, asked only whether it succeeds: it does
/// exactly when `base` matches whole leading components of `path`.
#[verifier::external_body]
pub(crate) fn path_has_base(path: &str, base: &str) -> (r: bool)
    ensures
        r == path_under(path@, base@),
{
    Utf8Path::new(path).strip_prefix(base).is_ok()
}

/// What path normalization makes of a path that it accepts.
#[derive(Debug, Clone, PartialEq, Eq)]
pub enum NormalizedPathResult {
    /// The path lies outside `/usr` and `/etc`; the field holds its first name.
    Filtered(String),
    /// The path is kept, under this normalized form.
    Normal(String),
}

/// The mathematical content of a [`NormalizedPathResult`].
pub enum NormalizedView {
    Filtered(Seq<char>),
    Normal(Seq<char>),
}

impl View for NormalizedPathResult {
    type V = NormalizedView;

    open spec fn view(&self) -> NormalizedView {
        match self {
            NormalizedPathResult::Filtered(s) => NormalizedView::Filtered(s@),
            NormalizedPathResult::Normal(s) => NormalizedView::Normal(s@),
        }
    }
}

/// A path that normalization refuses: it holds `..` or a Windows prefix.
#[derive(Debug, Clone, PartialEq, Eq)]
pub struct InvalidPath {
    /// The path as it was given.
    pub path: String,
}

impl InvalidPath {
    /// The kind of this failure: a path that must not be there.
    pub fn kind(&self) -> (k: ErrorKind)
        ensures
            k == ErrorKind::Validation,
    {
        ErrorKind::Validation
    }

    /// The message for this failure.
    pub fn message(&self) -> (m: String)
        ensures
            m@ == "Invalid path: "@ + self.path@,
    {
        String::from_str("Invalid path: ").concat(self.path.as_str())
    }
}

/// Whether a component makes its path unacceptable.
pub open spec fn is_invalid(p: PartView) -> bool {
    p is Prefix || p is ParentDir
}

/// Whether some component of the path is unacceptable.
pub open spec fn has_invalid(parts: Seq<PartView>) -> bool {
    exists|i: int| 0 <= i < parts.len() && is_invalid(#[trigger] parts[i])
}

/// The text that a component contributes to a normalized path: a name
/// stands for itself, anything else for the current directory.
pub open spec fn part_text(p: PartView) -> Seq<char> {
    match p {
        PartView::Normal(name) => name,
        _ => "."@,
    }
}

/// Index of the first name among the components, or their number when there is none.
pub open spec fn first_normal(parts: Seq<PartView>) -> int
    decreases parts.len(),
{
    if parts.len() == 0 {
        0
    } else if parts[0] is Normal {
        0
    } else {
        1 + first_normal(parts.drop_first())
    }
}

/// The path text `buf` extended by the components in turn.
pub open spec fn joined(buf: Seq<char>, parts: Seq<PartView>) -> Seq<char>
    decreases parts.len(),
{
    if parts.len() == 0 {
        buf
    } else {
        pushed(joined(buf, parts.drop_last()), part_text(parts.last()))
    }
}

/// The normalized form of a component sequence. A sequence with `..` or a
/// prefix has none. Otherwise the root counts as the current directory, the
/// result starts with `.`, and the first name decides: `usr` is kept, `etc`
/// moves below `usr`, and any other name has the path filtered out under
/// that name.
pub open spec fn normalized(parts: Seq<PartView>) -> Option<NormalizedView> {
    if has_invalid(parts) {
        None
    } else {
        let k = first_normal(parts);
        let lead = if k == 0 && parts.len() > 0 {
            pushed(Seq::empty(), "."@)
        } else {
            Seq::empty()
        };
        let pre = joined(lead, parts.take(k));
        if k >= parts.len() {
            Some(NormalizedView::Normal(pre))
        } else {
            let name = parts[k]->Normal_0;
            let rest = parts.skip(k + 1);
            if name == "usr"@ {
                Some(NormalizedView::Normal(joined(pushed(pre, "usr"@), rest)))
            } else if name == "etc"@ {
                Some(NormalizedView::Normal(joined(pushed(pre, "usr/etc"@), rest)))
            } else {
                Some(NormalizedView::Filtered(name))
            }
        }
    }
}

/// The content of an optional normalization result.
pub open spec fn normalized_view(r: Option<NormalizedPathResult>) -> Option<NormalizedView> {
    match r {
        Some(n) => Some(n@),
        None => None,
    }
}

proof fn lemma_first_normal(parts: Seq<PartView>)
    ensures
        0 <= first_normal(parts) <= parts.len(),
        first_normal(parts) < parts.len() ==> parts[first_normal(parts)] is Normal,
        forall|j: int| 0 <= j < first_normal(parts) ==> !(#[trigger] parts[j] is Normal),
    decreases parts.len(),
{
    if parts.len() > 0 && !(parts[0] is Normal) {
        let t = parts.drop_first();
        lemma_first_normal(t);
        assert forall|j: int| 0 <= j < first_normal(parts) implies !(#[trigger] parts[j] is Normal) by {
            if j > 0 {
                assert(t[j - 1] == parts[j]);
            }
        }
    }
}

/// The first name is where no earlier component is a name.
proof fn lemma_first_normal_at(parts: Seq<PartView>, k: int)
    requires
        0 <= k <= parts.len(),
        forall|j: int| 0 <= j < k ==> !(#[trigger] parts[j] is Normal),
        k < parts.len() ==> parts[k] is Normal,
    ensures
        first_normal(parts) == k,
{
    lemma_first_normal(parts);
    let f = first_normal(parts);
    if f < k {
        assert(parts[f] is Normal);
    } else if f > k {
        assert(!(parts[k] is Normal));
    }
}

/// Normalizes a sequence of path components.
pub fn normalize_parts(parts: &Vec<PathPart>) -> (r: Option<NormalizedPathResult>)
    ensures
        normalized_view(r) == normalized(part_views(parts@)),
{
    let ghost pv = part_views(parts@);
    let n = parts.len();
    let mut i: usize = 0;
    while i < n
        invariant
            n == parts@.len(),
            pv == part_views(parts@),
            i <= n,
            forall|j: int| 0 <= j < i ==> !is_invalid(#[trigger] pv[j]),
        decreases n - i,
    {
        match &parts[i] {
            PathPart::Prefix | PathPart::ParentDir => {
                assert(is_invalid(pv[i as int]));
                return None;
            },
            _ => {},
        }
        i = i + 1;
    }
    assert(!has_invalid(pv));
    let mut ret = String::new();
    if n > 0 {
        if let PathPart::Normal(_) = &parts[0] {
            ret = path_push(ret, ".");
        }
    }
    let ghost lead = ret@;
    let mut k: usize = 0;
    while k < n && !matches!(&parts[k], PathPart::Normal(_))
        invariant
            n == parts@.len(),
            pv == part_views(parts@),
            k <= n,
            forall|j: int| 0 <= j < k ==> !(#[trigger] pv[j] is Normal),
            ret@ == joined(lead, pv.take(k as int)),
        decreases n - k,
    {
        ret = path_push(ret, ".");
        proof {
            let s = pv.take(k + 1);
            assert(s.drop_last() =~= pv.take(k as int));
            assert(s.last() == pv[k as int]);
        }
        k = k + 1;
    }
    proof {
        lemma_first_normal_at(pv, k as int);
    }
    if k >= n {
        return Some(NormalizedPathResult::Normal(ret));
    }
    let ghost pre = ret@;
    match &parts[k] {
        PathPart::Normal(name) => {
            if str_eq(name.as_str(), "usr") {
                ret = path_push(ret, "usr");
            } else if str_eq(name.as_str(), "etc") {
                ret = path_push(ret, "usr/etc");
            } else {
                return Some(NormalizedPathResult::Filtered(name.clone()));
            }
        },
        _ => {},
    }
    let ghost start = ret@;
    let ghost rest = pv.skip(k + 1);
    let mut i: usize = k + 1;
    while i < n
        invariant
            n == parts@.len(),
            pv == part_views(parts@),
            rest == pv.skip(k + 1),
            k < i <= n,
            ret@ == joined(start, rest.take(i - k - 1)),
        decreases n - i,
    {
        proof {
            let s = rest.take(i - k);
            assert(s.drop_last() =~= rest.take(i - k - 1));
            assert(s.last() == pv[i as int]);
        }
        match &parts[i] {
            PathPart::Normal(name) => {
                ret = path_push(ret, name.as_str());
            },
            _ => {
                ret = path_push(ret, ".");
            },
        }
        i = i + 1;
    }
    assert(rest.take(n - k - 1) =~= rest);
    Some(NormalizedPathResult::Normal(ret))
}

/// Normalizes a path: rejects `..` and Windows prefixes, folds the root,
/// repeated separators and inner `.` into a leading `./`, keeps `usr`,
/// moves `etc` to `usr/etc`, and filters every other path out under its
/// first name.
pub fn normalize_validate_path(path: &str) -> (r: Result<NormalizedPathResult, InvalidPath>)
    ensures
        match r {
            Ok(n) => normalized(components_of(path@)) == Some(n@),
            Err(e) => normalized(components_of(path@)) is None && e.path@ == path@,
        },
{
    let parts = path_components(path);
    match normalize_parts(&parts) {
        Some(n) => Ok(n),
        None => Err(InvalidPath { path: String::from_str(path) }),
    }
}

/// Whether every component is a name or the current directory.
pub open spec fn only_names_and_curdir(parts: Seq<PartView>) -> bool {
    forall|i: int| 0 <= i < parts.len() ==> (#[trigger] parts[i] is Normal) || parts[i] is CurDir
}

/// Extending a path text by relative parts keeps what it began with.
proof fn lemma_joined_keeps_prefix(buf: Seq<char>, parts: Seq<PartView>, p: Seq<char>)
    requires
        has_prefix(buf, p),
        forall|i: int|
            0 <= i < parts.len() ==> {
                let t = part_text(#[trigger] parts[i]);
                t.len() == 0 || t[0] != '/'
            },
    ensures
        has_prefix(joined(buf, parts), p),
    decreases parts.len(),
{
    reveal_strlit(".");
    if parts.len() > 0 {
        let init = parts.drop_last();
        assert forall|i: int| 0 <= i < init.len() implies {
            let t = part_text(#[trigger] init[i]);
            t.len() == 0 || t[0] != '/'
        } by {
            assert(init[i] == parts[i]);
        }
        lemma_joined_keeps_prefix(buf, init, p);
        let x = joined(buf, init);
        let t = part_text(parts.last());
        let y = pushed(x, t);
        assert(y.subrange(0, p.len() as int) =~= x.subrange(0, p.len() as int));
    }
}

/// Extending a path text that does not end in a separator by at least one
/// relative part gives a text that begins with the first one and a separator.
proof fn lemma_joined_below(buf: Seq<char>, parts: Seq<PartView>)
    requires
        buf.len() > 0,
        buf.last() != '/',
        parts.len() > 0,
        forall|i: int|
            0 <= i < parts.len() ==> {
                let t = part_text(#[trigger] parts[i]);
                t.len() == 0 || t[0] != '/'
            },
    ensures
        has_prefix(joined(buf, parts), buf + seq!['/']),
{
    let first = parts.take(1);
    let below = pushed(buf, part_text(parts[0]));
    assert(first.drop_last() =~= Seq::<PartView>::empty());
    assert(joined(buf, first.drop_last()) == buf);
    assert(first.last() == parts[0]);
    assert(joined(buf, first) == below);
    assert(below.subrange(0, buf.len() as int + 1) =~= buf + seq!['/']);
    lemma_joined_from(buf, parts, 1);
    let rest = parts.skip(1);
    assert forall|i: int| 0 <= i < rest.len() implies {
        let t = part_text(#[trigger] rest[i]);
        t.len() == 0 || t[0] != '/'
    } by {
        assert(rest[i] == parts[i + 1]);
    }
    lemma_joined_keeps_prefix(below, rest, buf + seq!['/']);
}

/// Extending by a sequence is extending by its first `n` parts and then by the others.
proof fn lemma_joined_from(buf: Seq<char>, parts: Seq<PartView>, n: int)
    requires
        0 <= n <= parts.len(),
    ensures
        joined(buf, parts) == joined(joined(buf, parts.take(n)), parts.skip(n)),
    decreases parts.len(),
{
    if n == parts.len() {
        assert(parts.take(n) =~= parts);
        assert(parts.skip(n) =~= Seq::<PartView>::empty());
    } else {
        let init = parts.drop_last();
        lemma_joined_from(buf, init, n);
        assert(init.take(n) =~= parts.take(n));
        assert(parts.skip(n).drop_last() =~= init.skip(n));
        assert(parts.skip(n).last() == parts.last());
    }
}

/// A path whose components are names and `.` only, and whose first name is
/// `usr`, normalizes to a path that begins with `./usr`.
pub proof fn lemma_usr_path_is_kept(path: Seq<char>)
    requires
        well_formed_components(components_of(path)),
        only_names_and_curdir(components_of(path)),
        first_normal(components_of(path)) < components_of(path).len(),
        components_of(path)[first_normal(components_of(path))] == PartView::Normal("usr"@),
    ensures
        normalized(components_of(path)) matches Some(NormalizedView::Normal(p)) && has_prefix(
            p,
            "./usr"@,
        ),
{
    let parts = components_of(path);
    lemma_first_normal(parts);
    lemma_usr_start(parts);
    let k = first_normal(parts);
    let rest = parts.skip(k + 1);
    assert forall|i: int| 0 <= i < rest.len() implies {
        let t = part_text(#[trigger] rest[i]);
        t.len() == 0 || t[0] != '/'
    } by {
        lemma_relative_part(parts, k + 1 + i);
    }
    assert("./usr"@.subrange(0, "./usr"@.len() as int) =~= "./usr"@);
    lemma_joined_keeps_prefix("./usr"@, rest, "./usr"@);
}

/// A path whose components are names and `.` only, whose first name is `usr`
/// and which goes on after it, normalizes to a path that begins with `./usr/`.
pub proof fn lemma_usr_path_stays_below_usr(path: Seq<char>)
    requires
        well_formed_components(components_of(path)),
        only_names_and_curdir(components_of(path)),
        first_normal(components_of(path)) + 1 < components_of(path).len(),
        components_of(path)[first_normal(components_of(path))] == PartView::Normal("usr"@),
    ensures
        normalized(components_of(path)) matches Some(NormalizedView::Normal(p)) && has_prefix(
            p,
            "./usr/"@,
        ),
{
    let parts = components_of(path);
    lemma_first_normal(parts);
    lemma_usr_start(parts);
    let k = first_normal(parts);
    let rest = parts.skip(k + 1);
    assert forall|i: int| 0 <= i < rest.len() implies {
        let t = part_text(#[trigger] rest[i]);
        t.len() == 0 || t[0] != '/'
    } by {
        lemma_relative_part(parts, k + 1 + i);
    }
    reveal_strlit("./usr");
    reveal_strlit("./usr/");
    lemma_joined_below("./usr"@, rest);
    assert("./usr"@ + seq!['/'] =~= "./usr/"@);
}

/// A component of a well-formed sequence contributes a relative text.
proof fn lemma_relative_part(parts: Seq<PartView>, i: int)
    requires
        well_formed_components(parts),
        0 <= i < parts.len(),
    ensures
        part_text(parts[i]).len() == 0 || part_text(parts[i])[0] != '/',
{
    reveal_strlit(".");
    match parts[i] {
        PartView::Normal(name) => {
            assert(name.contains(name[0]));
        },
        _ => {},
    }
}

/// What comes before the first name of a well-formed path without `..`
/// normalizes to `.`.
proof fn lemma_lead_is_dot(parts: Seq<PartView>)
    requires
        well_formed_components(parts),
        !has_invalid(parts),
        first_normal(parts) < parts.len(),
    ensures
        joined(
            if first_normal(parts) == 0 {
                pushed(Seq::empty(), "."@)
            } else {
                Seq::empty()
            },
            parts.take(first_normal(parts)),
        ) == "."@,
{
    reveal_strlit(".");
    lemma_first_normal(parts);
    let k = first_normal(parts);
    let lead = if k == 0 {
        pushed(Seq::empty(), "."@)
    } else {
        Seq::<char>::empty()
    };
    let pre = joined(lead, parts.take(k));
    if k == 0 {
        assert(parts.take(0) =~= Seq::<PartView>::empty());
        assert(lead =~= "."@);
        assert(pre == lead);
    } else {
        if k >= 2 {
            assert(!(parts[1] is Normal));
            assert(!is_invalid(parts[1]));
            assert(false);
        }
        assert(!(parts[0] is Normal));
        let one = parts.take(1);
        assert(one.drop_last() =~= Seq::<PartView>::empty());
        assert(joined(lead, one.drop_last()) == lead);
        assert(one.last() == parts[0]);
        assert(pre == pushed(lead, "."@));
        assert(pre =~= "."@);
    }
}

/// Up to and including a first name `usr`, a well-formed path of names and
/// `.` normalizes to `./usr`.
proof fn lemma_usr_start(parts: Seq<PartView>)
    requires
        well_formed_components(parts),
        only_names_and_curdir(parts),
        first_normal(parts) < parts.len(),
        parts[first_normal(parts)] == PartView::Normal("usr"@),
    ensures
        !has_invalid(parts),
        normalized(parts) == Some(
            NormalizedView::Normal(joined("./usr"@, parts.skip(first_normal(parts) + 1))),
        ),
{
    reveal_strlit(".");
    reveal_strlit("usr");
    reveal_strlit("./usr");
    lemma_first_normal(parts);
    assert(!has_invalid(parts)) by {
        assert forall|i: int| 0 <= i < parts.len() implies !is_invalid(#[trigger] parts[i]) by {
            assert(parts[i] is Normal || parts[i] is CurDir);
        }
    }
    lemma_lead_is_dot(parts);
    assert(pushed("."@, "usr"@) =~= "./usr"@);
}

/// Every path that is kept and has a name lies below `./usr` once it is
/// normalized.
pub proof fn lemma_kept_path_lies_below_usr(path: Seq<char>)
    requires
        well_formed_components(components_of(path)),
        first_normal(components_of(path)) < components_of(path).len(),
        normalized(components_of(path)) matches Some(NormalizedView::Normal(_)),
    ensures
        normalized(components_of(path)) matches Some(NormalizedView::Normal(p)) && has_prefix(
            p,
            "./usr"@,
        ),
{
    reveal_strlit(".");
    reveal_strlit("usr");
    reveal_strlit("etc");
    reveal_strlit("usr/etc");
    reveal_strlit("./usr");
    let parts = components_of(path);
    lemma_first_normal(parts);
    lemma_lead_is_dot(parts);
    let k = first_normal(parts);
    let rest = parts.skip(k + 1);
    assert forall|i: int| 0 <= i < rest.len() implies {
        let t = part_text(#[trigger] rest[i]);
        t.len() == 0 || t[0] != '/'
    } by {
        lemma_relative_part(parts, k + 1 + i);
    }
    let name = parts[k]->Normal_0;
    if name == "usr"@ {
        let start = pushed("."@, "usr"@);
        assert(start =~= "./usr"@);
        assert(start.subrange(0, "./usr"@.len() as int) =~= "./usr"@);
        lemma_joined_keeps_prefix(start, rest, "./usr"@);
    } else {
        let start = pushed("."@, "usr/etc"@);
        assert(start =~= "./usr"@ + "/etc"@) by {
            reveal_strlit("/etc");
        }
        assert(start.subrange(0, "./usr"@.len() as int) =~= "./usr"@);
        lemma_joined_keeps_prefix(start, rest, "./usr"@);
    }
}

/// A path with a `..` component has no normalized form.
pub proof fn lemma_parent_dir_is_refused(path: Seq<char>)
    requires
        exists|i: int|
            0 <= i < components_of(path).len() && #[trigger] components_of(path)[i] is ParentDir,
    ensures
        normalized(components_of(path)) is None,
{
    let parts = components_of(path);
    let i = choose|i: int| 0 <= i < parts.len() && #[trigger] parts[i] is ParentDir;
    assert(is_invalid(parts[i]));
}

} // verus!
