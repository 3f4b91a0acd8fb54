//! Layers of image manifests, and the difference between two manifests.

use crate::text::{
    decimal, lemma_text_lt_irreflexive, lemma_text_lt_total, lemma_text_lt_transitive, str_lt,
    text_lt, usize_to_string,
};
use vstd::prelude::*;

verus! {

/// The media type of a blob, as far as fetching tells media types apart.
#[derive(Debug, Clone, PartialEq, Eq)]
pub enum MediaType {
    /// A layer as a tar archive.
    ImageLayer,
    /// A layer as a tar archive compressed with gzip.
    ImageLayerGzip,
    /// Any other media type, by its name.
    Other(String),
}

/// The mathematical content of a [`MediaType`].
pub enum MediaTypeView {
    ImageLayer,
    ImageLayerGzip,
    Other(Seq<char>),
}

impl View for MediaType {
    type V = MediaTypeView;

    open spec fn view(&self) -> MediaTypeView {
        match self {
            MediaType::ImageLayer => MediaTypeView::ImageLayer,
            MediaType::ImageLayerGzip => MediaTypeView::ImageLayerGzip,
            MediaType::Other(name) => MediaTypeView::Other(name@),
        }
    }
}

impl MediaType {
    /// A copy of this media type.
    pub fn duplicate(&self) -> (m: MediaType)
        ensures
            m@ == self@,
    {
        match self {
            MediaType::ImageLayer => MediaType::ImageLayer,
            MediaType::ImageLayerGzip => MediaType::ImageLayerGzip,
            MediaType::Other(name) => MediaType::Other(name.clone()),
        }
    }

    /// Whether two media types are the same.
    pub fn same_as(&self, other: &MediaType) -> (r: bool)
        ensures
            r == (self@ == other@),
    {
        match (self, other) {
            (MediaType::ImageLayer, MediaType::ImageLayer) => true,
            (MediaType::ImageLayerGzip, MediaType::ImageLayerGzip) => true,
            (MediaType::Other(a), MediaType::Other(b)) => {
                let r = *a == *b;
                r
            },
            _ => false,
        }
    }
}

/// What a manifest says of one blob: its media type, its digest and its size.
#[derive(Debug, Clone, PartialEq, Eq)]
pub struct Descriptor {
    /// The media type of the blob.
    pub media_type: MediaType,
    /// The digest of the blob.
    pub digest: String,
    /// The size of the blob in bytes.
    pub size: i64,
}

/// The mathematical content of a [`Descriptor`].
pub struct DescriptorView {
    pub media_type: MediaTypeView,
    pub digest: Seq<char>,
    pub size: i64,
}

impl View for Descriptor {
    type V = DescriptorView;

    open spec fn view(&self) -> DescriptorView {
        DescriptorView { media_type: self.media_type@, digest: self.digest@, size: self.size }
    }
}

impl Descriptor {
    /// Whether two descriptors say the same of their blob.
    pub fn same_as(&self, other: &Descriptor) -> (r: bool)
        ensures
            r == (self@ == other@),
    {
        let same_digest = self.digest == other.digest;
        self.media_type.same_as(&other.media_type) && same_digest && self.size == other.size
    }
}

/// An image manifest, as far as its layers go.
#[derive(Debug, Clone, PartialEq, Eq)]
pub struct ImageManifest {
    /// The layers of the image, the lowest first.
    pub layers: Vec<Descriptor>,
}

/// The contents of a sequence of descriptors.
pub open spec fn layer_views(layers: Seq<Descriptor>) -> Seq<DescriptorView> {
    layers.map_values(|d: Descriptor| d@)
}

/// The contents of a sequence of borrowed descriptors.
pub open spec fn borrowed_views(layers: Seq<&Descriptor>) -> Seq<DescriptorView> {
    layers.map_values(|d: &Descriptor| d@)
}

impl View for ImageManifest {
    type V = Seq<DescriptorView>;

    open spec fn view(&self) -> Seq<DescriptorView> {
        layer_views(self.layers@)
    }
}

/// Whether one of the layers has the digest.
pub open spec fn has_digest(layers: Seq<DescriptorView>, digest: Seq<char>) -> bool {
    exists|i: int| 0 <= i < layers.len() && (#[trigger] layers[i]).digest == digest
}

/// Whether no layer after the one at `i` has its digest.
pub open spec fn last_of_its_digest(layers: Seq<DescriptorView>, i: int) -> bool {
    forall|j: int| i < j < layers.len() ==> (#[trigger] layers[j]).digest != layers[i].digest
}

/// Whether `d` is a layer of `from` that takes part in the difference to
/// `to`: no layer of `to` has its digest, and among the layers of `from`
/// with that digest it is the last.
pub open spec fn in_difference(
    d: DescriptorView,
    from: Seq<DescriptorView>,
    to: Seq<DescriptorView>,
) -> bool {
    exists|i: int|
        0 <= i < from.len() && #[trigger] from[i] == d && last_of_its_digest(from, i)
            && !has_digest(to, d.digest)
}

/// Whether the digests ascend strictly.
pub open spec fn ascending_digests(layers: Seq<DescriptorView>) -> bool {
    forall|a: int, b: int|
        0 <= a < b < layers.len() ==> text_lt(
            (#[trigger] layers[a]).digest,
            (#[trigger] layers[b]).digest,
        )
}

/// Whether `out` is the difference of `from` to `to` by digest: one layer
/// for each digest that `from` has and `to` lacks, in ascending order of
/// the digests.
pub open spec fn is_difference(
    out: Seq<DescriptorView>,
    from: Seq<DescriptorView>,
    to: Seq<DescriptorView>,
) -> bool {
    &&& ascending_digests(out)
    &&& forall|k: int| 0 <= k < out.len() ==> in_difference(#[trigger] out[k], from, to)
    &&& forall|i: int|
        0 <= i < from.len() && !has_digest(to, (#[trigger] from[i]).digest) ==> has_digest(
            out,
            from[i].digest,
        )
}

/// Whether one of the layers from position `from` on has the digest.
fn contains_digest(layers: &Vec<Descriptor>, from: usize, digest: &String) -> (r: bool)
    requires
        from <= layers@.len(),
    ensures
        r == exists|i: int|
            from <= i < layers@.len() && (#[trigger] layer_views(layers@)[i]).digest == digest@,
{
    let ghost lv = layer_views(layers@);
    let n = layers.len();
    let mut i: usize = from;
    while i < n
        invariant
            n == layers@.len(),
            lv == layer_views(layers@),
            from <= i <= n,
            forall|j: int| from <= j < i ==> (#[trigger] lv[j]).digest != digest@,
        decreases n - i,
    {
        let same = layers[i].digest == *digest;
        if same {
            assert(lv[i as int].digest == digest@);
            return true;
        }
        i = i + 1;
    }
    false
}

/// Puts `d` into layers that ascend by digest, at the place that keeps them
/// ascending, and says where that was.
fn insert_ascending<'a>(out: &mut Vec<&'a Descriptor>, d: &'a Descriptor) -> (p: usize)
    requires
        ascending_digests(borrowed_views(old(out)@)),
        !has_digest(borrowed_views(old(out)@), d@.digest),
    ensures
        p <= old(out)@.len(),
        final(out)@ == old(out)@.insert(p as int, d),
        borrowed_views(final(out)@) == borrowed_views(old(out)@).insert(p as int, d@),
        ascending_digests(borrowed_views(final(out)@)),
{
    let ghost before = borrowed_views(out@);
    let m = out.len();
    let mut p: usize = 0;
    while p < m && str_lt(out[p].digest.as_str(), d.digest.as_str())
        invariant
            m == out@.len(),
            *out == *old(out),
            before == borrowed_views(out@),
            p <= m,
            forall|k: int| 0 <= k < p ==> text_lt((#[trigger] before[k]).digest, d@.digest),
        decreases m - p,
    {
        p = p + 1;
    }
    proof {
        if p < m {
            assert(before[p as int].digest != d@.digest);
            lemma_text_lt_total(before[p as int].digest, d@.digest);
        }
        assert forall|k: int| p <= k < m implies text_lt(d@.digest, (#[trigger] before[k]).digest) by {
            if k > p {
                lemma_text_lt_transitive(d@.digest, before[p as int].digest, before[k].digest);
            }
        }
    }
    out.insert(p, d);
    proof {
        let after = borrowed_views(out@);
        assert(after =~= before.insert(p as int, d@));
        assert forall|a: int, b: int| 0 <= a < b < after.len() implies text_lt(
            (#[trigger] after[a]).digest,
            (#[trigger] after[b]).digest,
        ) by {
            if a < p && b < p {
                assert(text_lt(before[a].digest, before[b].digest));
            } else if a < p && b == p {
                assert(text_lt(before[a].digest, d@.digest));
            } else if a < p && b > p {
                assert(text_lt(before[a].digest, before[b - 1].digest));
            } else if a == p {
                assert(text_lt(d@.digest, before[b - 1].digest));
            } else {
                assert(text_lt(before[a - 1].digest, before[b - 1].digest));
            }
        }
    }
    p
}

/// The layers of `from` whose digest no layer of `to` has, one for each
/// digest, in ascending order of the digests.
fn difference<'a>(from: &'a Vec<Descriptor>, to: &Vec<Descriptor>) -> (out: Vec<&'a Descriptor>)
    ensures
        is_difference(borrowed_views(out@), layer_views(from@), layer_views(to@)),
{
    let ghost fv = layer_views(from@);
    let ghost tv = layer_views(to@);
    let ghost mut origin: Seq<int> = Seq::empty();
    let mut out: Vec<&'a Descriptor> = Vec::new();
    let n = from.len();
    let mut i: usize = 0;
    while i < n
        invariant
            n == from@.len(),
            fv == layer_views(from@),
            tv == layer_views(to@),
            i <= n,
            ascending_digests(borrowed_views(out@)),
            origin.len() == out@.len(),
            forall|k: int|
                0 <= k < origin.len() ==> {
                    &&& 0 <= #[trigger] origin[k] < i
                    &&& fv[origin[k]] == borrowed_views(out@)[k]
                    &&& last_of_its_digest(fv, origin[k])
                    &&& !has_digest(tv, fv[origin[k]].digest)
                },
            forall|j: int|
                0 <= j < i && last_of_its_digest(fv, j) && !has_digest(tv, (#[trigger] fv[j]).digest)
                    ==> has_digest(borrowed_views(out@), fv[j].digest),
        decreases n - i,
    {
        let d = &from[i];
        let in_to = contains_digest(to, 0, &d.digest);
        let later = contains_digest(from, i + 1, &d.digest);
        let ghost before = borrowed_views(out@);
        let ghost origin_before = origin;
        assert(fv[i as int] == d@);
        assert(in_to == has_digest(tv, d@.digest));
        assert(later == !last_of_its_digest(fv, i as int));
        if !in_to && !later {
            proof {
                assert(!has_digest(before, d@.digest)) by {
                    if has_digest(before, d@.digest) {
                        let k = choose|k: int|
                            0 <= k < before.len() && (#[trigger] before[k]).digest == d@.digest;
                        let j = origin[k];
                        assert(fv[i as int].digest != fv[j].digest);
                    }
                }
            }
            let p = insert_ascending(&mut out, d);
            proof {
                origin = origin_before.insert(p as int, i as int);
                let after = borrowed_views(out@);
                assert forall|k: int| 0 <= k < origin.len() implies {
                    &&& 0 <= #[trigger] origin[k] < i + 1
                    &&& fv[origin[k]] == after[k]
                    &&& last_of_its_digest(fv, origin[k])
                    &&& !has_digest(tv, fv[origin[k]].digest)
                } by {
                    if k < p {
                        assert(origin[k] == origin_before[k]);
                        assert(after[k] == before[k]);
                    } else if k > p {
                        assert(origin[k] == origin_before[k - 1]);
                        assert(after[k] == before[k - 1]);
                    }
                }
                assert forall|j: int|
                    0 <= j < i + 1 && last_of_its_digest(fv, j) && !has_digest(
                        tv,
                        (#[trigger] fv[j]).digest,
                    ) implies has_digest(after, fv[j].digest) by {
                    if j < i {
                        let k = choose|k: int|
                            0 <= k < before.len() && (#[trigger] before[k]).digest == fv[j].digest;
                        if k < p {
                            assert(after[k].digest == fv[j].digest);
                        } else {
                            assert(after[k + 1].digest == fv[j].digest);
                        }
                    } else {
                        assert(after[p as int].digest == fv[j].digest);
                    }
                }
            }
        }
        i = i + 1;
    }
    proof {
        let ov = borrowed_views(out@);
        assert forall|k: int| 0 <= k < ov.len() implies in_difference(#[trigger] ov[k], fv, tv) by {
            assert(fv[origin[k]] == ov[k]);
        }
        assert forall|j: int|
            0 <= j < fv.len() && !has_digest(tv, (#[trigger] fv[j]).digest) implies has_digest(
            ov,
            fv[j].digest,
        ) by {
            let l = lemma_last_with_digest(fv, j);
            assert(fv[l].digest == fv[j].digest);
        }
    }
    out
}

/// Among the layers with the digest of the one at `i` there is a last.
proof fn lemma_last_with_digest(layers: Seq<DescriptorView>, i: int) -> (l: int)
    requires
        0 <= i < layers.len(),
    ensures
        i <= l < layers.len(),
        layers[l].digest == layers[i].digest,
        last_of_its_digest(layers, l),
    decreases layers.len() - i,
{
    if last_of_its_digest(layers, i) {
        i
    } else {
        let j = choose|j: int| i < j < layers.len() && (#[trigger] layers[j]).digest != layers[i].digest
            == false;
        assert(layers[j].digest == layers[i].digest);
        let l = lemma_last_with_digest(layers, j);
        l
    }
}

/// Represents the difference in layer/blob content between two OCI image manifests.
#[derive(Debug)]
pub struct ManifestDiff<'a> {
    /// The source container image manifest.
    pub from: &'a ImageManifest,
    /// The target container image manifest.
    pub to: &'a ImageManifest,
    /// Layers which are present in the old image but not the new image.
    pub removed: Vec<&'a Descriptor>,
    /// Layers which are present in the new image but not the old image.
    pub added: Vec<&'a Descriptor>,
}

impl<'a> ManifestDiff<'a> {
    /// Compute the layer difference between two OCI image manifests.
    pub fn new(src: &'a ImageManifest, dest: &'a ImageManifest) -> (diff: ManifestDiff<'a>)
        ensures
            diff.from == src,
            diff.to == dest,
            is_difference(borrowed_views(diff.removed@), src@, dest@),
            is_difference(borrowed_views(diff.added@), dest@, src@),
            ascending_digests(borrowed_views(diff.removed@)),
            ascending_digests(borrowed_views(diff.added@)),
    {
        let removed = difference(&src.layers, &dest.layers);
        let added = difference(&dest.layers, &src.layers);
        ManifestDiff { from: src, to: dest, removed, added }
    }
}

/// The size of a blob as a count of bytes.
pub open spec fn byte_size(d: DescriptorView) -> nat {
    (d.size as u64) as nat
}

/// The sizes of the layers, added up.
pub open spec fn total_size(layers: Seq<DescriptorView>) -> nat
    decreases layers.len(),
{
    if layers.len() == 0 {
        0
    } else {
        total_size(layers.drop_last()) + byte_size(layers.last())
    }
}

/// The layers of a manifest, borrowed.
fn borrow_all<'a>(layers: &'a Vec<Descriptor>) -> (out: Vec<&'a Descriptor>)
    ensures
        borrowed_views(out@) == layer_views(layers@),
{
    let mut out: Vec<&'a Descriptor> = Vec::new();
    let n = layers.len();
    let mut i: usize = 0;
    while i < n
        invariant
            n == layers@.len(),
            i <= n,
            out@.len() == i,
            forall|j: int| 0 <= j < i ==> (#[trigger] out@[j])@ == layers@[j]@,
        decreases n - i,
    {
        out.push(&layers[i]);
        i = i + 1;
    }
    assert(borrowed_views(out@) =~= layer_views(layers@));
    out
}

/// Adds up the sizes of the layers; `None` where the sum does not fit.
pub fn layersum(layers: &Vec<&Descriptor>) -> (total: Option<u64>)
    ensures
        match total {
            Some(t) => t == total_size(borrowed_views(layers@)),
            None => total_size(borrowed_views(layers@)) > u64::MAX,
        },
{
    let ghost lv = borrowed_views(layers@);
    let n = layers.len();
    let mut sum: u64 = 0;
    let mut i: usize = 0;
    while i < n
        invariant
            n == layers@.len(),
            lv == borrowed_views(layers@),
            i <= n,
            sum == total_size(lv.take(i as int)),
        decreases n - i,
    {
        let size = layers[i].size as u64;
        proof {
            let s = lv.take(i + 1);
            assert(s.drop_last() =~= lv.take(i as int));
            assert(s.last() == lv[i as int]);
        }
        match sum.checked_add(size) {
            Some(next) => {
                sum = next;
            },
            None => {
                proof {
                    lemma_total_size_grows(lv, i + 1);
                }
                return None;
            },
        }
        i = i + 1;
    }
    assert(lv.take(n as int) =~= lv);
    Some(sum)
}

/// The sizes of the first `n` layers add up to no more than those of all.
proof fn lemma_total_size_grows(layers: Seq<DescriptorView>, n: int)
    requires
        0 <= n <= layers.len(),
    ensures
        total_size(layers.take(n)) <= total_size(layers),
    decreases layers.len() - n,
{
    if n == layers.len() {
        assert(layers.take(n) =~= layers);
    } else {
        lemma_total_size_grows(layers, n + 1);
        let s = layers.take(n + 1);
        assert(s.drop_last() =~= layers.take(n));
    }
}

/// The numbers that sum up a difference between two manifests.
#[derive(Debug, Clone, Copy, PartialEq, Eq)]
pub struct DiffSummary {
    /// Number of layers of the target manifest.
    pub total: usize,
    /// Their sizes, added up.
    pub total_size: u64,
    /// Number of layers removed.
    pub n_removed: usize,
    /// Their sizes, added up.
    pub removed_size: u64,
    /// Number of layers added.
    pub n_added: usize,
    /// Their sizes, added up.
    pub added_size: u64,
}

impl<'a> ManifestDiff<'a> {
    /// The counts and sizes of the target's layers, of the removed layers
    /// and of the added layers; `None` where one of the sums does not fit.
    pub fn summary(&self) -> (r: Option<DiffSummary>)
        ensures
            match r {
                Some(s) => {
                    &&& s.total == self.to@.len()
                    &&& s.total_size == total_size(self.to@)
                    &&& s.n_removed == self.removed@.len()
                    &&& s.removed_size == total_size(borrowed_views(self.removed@))
                    &&& s.n_added == self.added@.len()
                    &&& s.added_size == total_size(borrowed_views(self.added@))
                },
                None => total_size(self.to@) > u64::MAX || total_size(
                    borrowed_views(self.removed@),
                ) > u64::MAX || total_size(borrowed_views(self.added@)) > u64::MAX,
            },
    {
        let all = borrow_all(&self.to.layers);
        let total_size = match layersum(&all) {
            Some(t) => t,
            None => {
                return None;
            },
        };
        let removed_size = match layersum(&self.removed) {
            Some(t) => t,
            None => {
                return None;
            },
        };
        let added_size = match layersum(&self.added) {
            Some(t) => t,
            None => {
                return None;
            },
        };
        Some(
            DiffSummary {
                total: self.to.layers.len(),
                total_size,
                n_removed: self.removed.len(),
                removed_size,
                n_added: self.added.len(),
                added_size,
            },
        )
    }
}

/// The width to which the counts of a summary are padded.
pub const COUNT_WIDTH: usize = 4;

/// A text followed by as many spaces as bring it to the width.
pub open spec fn padded(text: Seq<char>, width: nat) -> Seq<char> {
    if text.len() >= width {
        text
    } else {
        text + Seq::new((width - text.len()) as nat, |i: int| ' ')
    }
}

/// One line of a summary: a label, a count and a size.
pub open spec fn summary_line(label: Seq<char>, count: nat, size: Seq<char>) -> Seq<char> {
    label + padded(decimal(count), COUNT_WIDTH as nat) + "  Size: "@ + size
}

/// The three lines of a summary, with the sizes as they are to be shown.
pub open spec fn summary_text(
    s: DiffSummary,
    total_size: Seq<char>,
    removed_size: Seq<char>,
    added_size: Seq<char>,
) -> Seq<char> {
    summary_line("Total new layers: "@, s.total as nat, total_size) + "\n"@ + summary_line(
        "Removed layers:   "@,
        s.n_removed as nat,
        removed_size,
    ) + "\n"@ + summary_line("Added layers:     "@, s.n_added as nat, added_size)
}

/// A count in decimal, followed by spaces up to the width of counts.
fn padded_count(count: usize) -> (r: String)
    ensures
        r@ == padded(decimal(count as nat), COUNT_WIDTH as nat),
{
    let mut r = usize_to_string(count);
    let ghost digits = r@;
    let mut len = r.as_str().unicode_len();
    proof {
        assert(digits + Seq::new(0nat, |i: int| ' ') =~= digits);
    }
    while len < COUNT_WIDTH
        invariant
            len == r@.len(),
            digits.len() <= len,
            digits.len() < COUNT_WIDTH ==> len <= COUNT_WIDTH,
            digits.len() >= COUNT_WIDTH ==> len == digits.len(),
            r@ == digits + Seq::new((len - digits.len()) as nat, |i: int| ' '),
        decreases COUNT_WIDTH - len,
    {
        let ghost before = r@;
        r.append(" ");
        proof {
            reveal_strlit(" ");
            assert(r@ =~= digits + Seq::new((len + 1 - digits.len()) as nat, |i: int| ' '));
        }
        len = len + 1;
    }
    proof {
        if digits.len() >= COUNT_WIDTH {
            assert(r@ =~= digits);
        }
    }
    r
}

/// One line of a summary.
fn line(label: &str, count: usize, size: &str) -> (r: String)
    ensures
        r@ == summary_line(label@, count as nat, size@),
{
    String::from_str(label).concat(padded_count(count).as_str()).concat("  Size: ").concat(size)
}

impl DiffSummary {
    /// The summary in three lines, one for the layers of the target, one
    /// for the removed and one for the added layers; each gives the count
    /// and the size, written as the argument for it says.
    pub fn to_text(&self, total_size: &str, removed_size: &str, added_size: &str) -> (r: String)
        ensures
            r@ == summary_text(*self, total_size@, removed_size@, added_size@),
    {
        line("Total new layers: ", self.total, total_size).concat("\n").concat(
            line("Removed layers:   ", self.n_removed, removed_size).as_str(),
        ).concat("\n").concat(line("Added layers:     ", self.n_added, added_size).as_str())
    }
}

/// The difference of a manifest to itself is empty.
pub proof fn lemma_difference_to_self_is_empty(out: Seq<DescriptorView>, a: Seq<DescriptorView>)
    requires
        is_difference(out, a, a),
    ensures
        out.len() == 0,
{
    if out.len() > 0 {
        assert(in_difference(out[0], a, a));
        let i = choose|i: int|
            0 <= i < a.len() && #[trigger] a[i] == out[0] && last_of_its_digest(a, i) && !has_digest(
                a,
                out[0].digest,
            );
        assert(a[i].digest == out[0].digest);
    }
}

/// Two differences of the same manifests hold the same layers. So what a
/// difference from `a` to `b` adds is what a difference from `b` to `a`
/// removes.
pub proof fn lemma_difference_is_unique(
    x: Seq<DescriptorView>,
    y: Seq<DescriptorView>,
    from: Seq<DescriptorView>,
    to: Seq<DescriptorView>,
)
    requires
        is_difference(x, from, to),
        is_difference(y, from, to),
    ensures
        x.to_set() == y.to_set(),
{
    assert forall|e: DescriptorView| x.to_set().contains(e) == y.to_set().contains(e) by {
        if x.contains(e) {
            lemma_difference_holds(x, y, from, to, e);
        }
        if y.contains(e) {
            lemma_difference_holds(y, x, from, to, e);
        }
    }
    assert(x.to_set() =~= y.to_set());
}

/// A layer of one difference is a layer of every difference of the same manifests.
proof fn lemma_difference_holds(
    x: Seq<DescriptorView>,
    y: Seq<DescriptorView>,
    from: Seq<DescriptorView>,
    to: Seq<DescriptorView>,
    e: DescriptorView,
)
    requires
        is_difference(x, from, to),
        is_difference(y, from, to),
        x.contains(e),
    ensures
        y.contains(e),
{
    let k = choose|k: int| 0 <= k < x.len() && x[k] == e;
    assert(in_difference(x[k], from, to));
    let i = choose|i: int|
        0 <= i < from.len() && #[trigger] from[i] == e && last_of_its_digest(from, i) && !has_digest(
            to,
            e.digest,
        );
    assert(has_digest(y, from[i].digest));
    let m = choose|m: int| 0 <= m < y.len() && (#[trigger] y[m]).digest == from[i].digest;
    assert(in_difference(y[m], from, to));
    let i2 = choose|i2: int|
        0 <= i2 < from.len() && #[trigger] from[i2] == y[m] && last_of_its_digest(from, i2)
            && !has_digest(to, y[m].digest);
    if i < i2 {
        assert(from[i2].digest != from[i].digest);
    } else if i2 < i {
        assert(from[i].digest != from[i2].digest);
    }
    assert(y[m] == e);
}

} // verus!
