//! Fetching an image and taking the commit out of it: which blob to ask
//! for, how to decode it, how progress is counted, and how the failures of
//! the two sides of the pipe are told apart.

use crate::container::manifest::{
    layer_views, Descriptor, DescriptorView, ImageManifest, MediaType, MediaTypeView,
};
use crate::container::Transport;
use crate::failure::{ErrorKind, Failure, FailureView};
use crate::text::{decimal, ends_with_str, has_suffix, usize_to_string};
use vstd::prelude::*;

verus! {

/// The result of an import operation
#[derive(Debug)]
pub struct Import {
    /// The commit that was imported
    pub ostree_commit: String,
    /// The image digest retrieved
    pub image_digest: String,
    /// Any deprecation warning
    pub deprecated_warning: Option<String>,
}

/// What local container storage says of a layer after converting it.
#[derive(Debug, Clone, PartialEq, Eq)]
pub struct ConvertedLayerInfo {
    /// Uncompressed digest of the layer.
    pub digest: String,
    /// Size of the blob.
    pub size: i64,
    /// Media type of the blob.
    pub media_type: MediaType,
}

/// The mathematical content of a [`ConvertedLayerInfo`].
pub struct ConvertedLayerView {
    pub digest: Seq<char>,
    pub size: i64,
    pub media_type: MediaTypeView,
}

impl View for ConvertedLayerInfo {
    type V = ConvertedLayerView;

    open spec fn view(&self) -> ConvertedLayerView {
        ConvertedLayerView { digest: self.digest@, size: self.size, media_type: self.media_type@ }
    }
}

/// Why a layer cannot be fetched.
#[derive(Debug, Clone, PartialEq, Eq)]
pub enum FetchError {
    /// The proxy gave no converted layers for local container storage.
    ProxyTooOld,
    /// The layer's position is past the converted layers.
    LayerOutOfRange { index: usize, count: usize },
    /// The media type is neither a tar archive nor one compressed with gzip.
    UnhandledLayerType(String),
    /// The image does not consist of one layer; it has this many.
    NotOneLayer(usize),
}

/// The mathematical content of a [`FetchError`].
pub enum FetchErrorView {
    ProxyTooOld,
    LayerOutOfRange { index: usize, count: usize },
    UnhandledLayerType(Seq<char>),
    NotOneLayer(usize),
}

impl View for FetchError {
    type V = FetchErrorView;

    open spec fn view(&self) -> FetchErrorView {
        match self {
            FetchError::ProxyTooOld => FetchErrorView::ProxyTooOld,
            FetchError::LayerOutOfRange { index, count } => FetchErrorView::LayerOutOfRange {
                index: *index,
                count: *count,
            },
            FetchError::UnhandledLayerType(name) => FetchErrorView::UnhandledLayerType(name@),
            FetchError::NotOneLayer(count) => FetchErrorView::NotOneLayer(*count),
        }
    }
}

impl FetchError {
    /// The kind of this failure: what the proxy cannot serve is the
    /// proxy's, what the image holds against expectation is malformed.
    pub fn kind(&self) -> (k: ErrorKind)
        ensures
            k == match self@ {
                FetchErrorView::ProxyTooOld => ErrorKind::Proxy,
                FetchErrorView::LayerOutOfRange { .. } => ErrorKind::Proxy,
                FetchErrorView::UnhandledLayerType(_) => ErrorKind::Parse,
                FetchErrorView::NotOneLayer(_) => ErrorKind::Parse,
            },
    {
        match self {
            FetchError::ProxyTooOld => ErrorKind::Proxy,
            FetchError::LayerOutOfRange { .. } => ErrorKind::Proxy,
            FetchError::UnhandledLayerType(_) => ErrorKind::Parse,
            FetchError::NotOneLayer(_) => ErrorKind::Parse,
        }
    }

    /// The message for this failure.
    pub fn message(&self) -> (m: String)
        ensures
            m@ == match self@ {
                FetchErrorView::ProxyTooOld => "skopeo too old to pull from containers-storage"@,
                FetchErrorView::LayerOutOfRange { index, count } => "blobid position "@ + decimal(
                    index as nat,
                ) + " exceeds diffid count "@ + decimal(count as nat),
                FetchErrorView::UnhandledLayerType(name) => "Unhandled layer type: "@ + name,
                FetchErrorView::NotOneLayer(count) => "Expected exactly one layer, found "@
                    + decimal(count as nat),
            },
    {
        match self {
            FetchError::ProxyTooOld => String::from_str(
                "skopeo too old to pull from containers-storage",
            ),
            FetchError::LayerOutOfRange { index, count } => String::from_str(
                "blobid position ",
            ).concat(usize_to_string(*index).as_str()).concat(" exceeds diffid count ").concat(
                usize_to_string(*count).as_str(),
            ),
            FetchError::UnhandledLayerType(name) => String::from_str(
                "Unhandled layer type: ",
            ).concat(name.as_str()),
            FetchError::NotOneLayer(count) => String::from_str(
                "Expected exactly one layer, found ",
            ).concat(usize_to_string(*count).as_str()),
        }
    }
}

/// The blob to ask the proxy for, and the layer it is for.
#[derive(Debug, Clone, PartialEq, Eq)]
pub struct BlobRequest {
    /// The digest to ask for.
    pub digest: String,
    /// The size to ask for, in bytes.
    pub size: u64,
    /// The media type in which the blob comes.
    pub media_type: MediaType,
    /// The position of the layer in its manifest.
    pub layer_index: usize,
}

/// The mathematical content of a [`BlobRequest`].
pub struct BlobRequestView {
    pub digest: Seq<char>,
    pub size: u64,
    pub media_type: MediaTypeView,
    pub layer_index: usize,
}

impl View for BlobRequest {
    type V = BlobRequestView;

    open spec fn view(&self) -> BlobRequestView {
        BlobRequestView {
            digest: self.digest@,
            size: self.size,
            media_type: self.media_type@,
            layer_index: self.layer_index,
        }
    }
}

/// Position of the first layer equal to `d`, or the number of layers when
/// there is none.
pub open spec fn position_of(layers: Seq<DescriptorView>, d: DescriptorView) -> int
    decreases layers.len(),
{
    if layers.len() == 0 {
        0
    } else if layers[0] == d {
        0
    } else {
        1 + position_of(layers.drop_first(), d)
    }
}

proof fn lemma_position_of(layers: Seq<DescriptorView>, d: DescriptorView, k: int)
    requires
        0 <= k <= layers.len(),
        forall|j: int| 0 <= j < k ==> #[trigger] layers[j] != d,
        k < layers.len() ==> layers[k] == d,
    ensures
        position_of(layers, d) == k,
    decreases layers.len(),
{
    if layers.len() > 0 && k > 0 {
        let t = layers.drop_first();
        assert(layers[0] != d);
        assert forall|j: int| 0 <= j < k - 1 implies #[trigger] t[j] != d by {
            assert(t[j] == layers[j + 1]);
        }
        lemma_position_of(t, d, k - 1);
    }
}

/// Where a layer stands in a manifest: the position of the first layer
/// equal to it, if there is one.
pub fn layer_position(manifest: &ImageManifest, layer: &Descriptor) -> (r: Option<usize>)
    ensures
        match r {
            Some(i) => i < manifest@.len() && i == position_of(manifest@, layer@),
            None => position_of(manifest@, layer@) == manifest@.len(),
        },
{
    let ghost lv = manifest@;
    let n = manifest.layers.len();
    let mut i: usize = 0;
    while i < n
        invariant
            n == manifest.layers@.len(),
            lv == layer_views(manifest.layers@),
            i <= n,
            forall|j: int| 0 <= j < i ==> #[trigger] lv[j] != layer@,
        decreases n - i,
    {
        if manifest.layers[i].same_as(layer) {
            proof {
                assert(lv[i as int] == layer@);
                lemma_position_of(lv, layer@, i as int);
            }
            return Some(i);
        }
        i = i + 1;
    }
    proof {
        lemma_position_of(lv, layer@, i as int);
    }
    None
}

/// The layer of an image that wraps a commit: such an image has exactly one.
pub fn require_one_layer(manifest: &ImageManifest) -> (r: Result<&Descriptor, FetchError>)
    ensures
        match r {
            Ok(layer) => manifest@.len() == 1 && layer@ == manifest@[0],
            Err(e) => manifest@.len() != 1 && e@ == FetchErrorView::NotOneLayer(
                manifest@.len() as usize,
            ),
        },
{
    let n = manifest.layers.len();
    if n == 1 {
        Ok(&manifest.layers[0])
    } else {
        Err(FetchError::NotOneLayer(n))
    }
}

/// The contents of the converted layers, where they were given.
pub open spec fn converted_views(info: Option<&Vec<ConvertedLayerInfo>>) -> Option<
    Seq<ConvertedLayerView>,
> {
    match info {
        Some(v) => Some(v@.map_values(|c: ConvertedLayerInfo| c@)),
        None => None,
    }
}

/// Which blob holds a layer. Local container storage converts layers, so
/// there the blob is the converted layer at the layer's position; elsewhere
/// it is the one that the manifest describes.
pub open spec fn blob_for(
    manifest: Seq<DescriptorView>,
    layer: DescriptorView,
    layer_info: Option<Seq<ConvertedLayerView>>,
    transport: Transport,
) -> Result<BlobRequestView, FetchErrorView> {
    let index = position_of(manifest, layer);
    if transport == Transport::ContainerStorage {
        match layer_info {
            None => Err(FetchErrorView::ProxyTooOld),
            Some(info) => if index < info.len() {
                Ok(
                    BlobRequestView {
                        digest: info[index].digest,
                        size: info[index].size as u64,
                        media_type: info[index].media_type,
                        layer_index: index as usize,
                    },
                )
            } else {
                Err(
                    FetchErrorView::LayerOutOfRange {
                        index: index as usize,
                        count: info.len() as usize,
                    },
                )
            },
        }
    } else {
        Ok(
            BlobRequestView {
                digest: layer.digest,
                size: layer.size as u64,
                media_type: layer.media_type,
                layer_index: index as usize,
            },
        )
    }
}

/// Decides which blob to ask the proxy for in order to fetch a layer of a
/// manifest.
pub fn select_layer_blob(
    manifest: &ImageManifest,
    layer: &Descriptor,
    layer_info: Option<&Vec<ConvertedLayerInfo>>,
    transport_src: Transport,
) -> (r: Result<BlobRequest, FetchError>)
    requires
        position_of(manifest@, layer@) < manifest@.len(),
    ensures
        r matches Ok(b) ==> b.layer_index < manifest@.len(),
        match r {
            Ok(b) => blob_for(manifest@, layer@, converted_views(layer_info), transport_src) == Ok::<
                BlobRequestView,
                FetchErrorView,
            >(b@),
            Err(e) => blob_for(manifest@, layer@, converted_views(layer_info), transport_src)
                == Err::<BlobRequestView, FetchErrorView>(e@),
        },
{
    let layer_index = match layer_position(manifest, layer) {
        Some(i) => i,
        None => {
            proof {
                assert(false);
            }
            0
        },
    };
    match transport_src {
        Transport::ContainerStorage => {
            let info = match layer_info {
                Some(info) => info,
                None => {
                    return Err(FetchError::ProxyTooOld);
                },
            };
            let n_layers = info.len();
            if layer_index < n_layers {
                let blob = &info[layer_index];
                Ok(
                    BlobRequest {
                        digest: blob.digest.clone(),
                        size: blob.size as u64,
                        media_type: blob.media_type.duplicate(),
                        layer_index,
                    },
                )
            } else {
                Err(FetchError::LayerOutOfRange { index: layer_index, count: n_layers })
            }
        },
        _ => Ok(
            BlobRequest {
                digest: layer.digest.clone(),
                size: layer.size as u64,
                media_type: layer.media_type.duplicate(),
                layer_index,
            },
        ),
    }
}

/// How the bytes of a blob become the bytes of a tar archive.
#[derive(Debug, Clone, Copy, PartialEq, Eq, Structural)]
pub enum Decompression {
    /// The blob is the archive.
    Identity,
    /// The blob is the archive compressed with gzip.
    Gzip,
}

/// Chooses how to decode a blob of the given media type: a gzip-compressed
/// layer is decompressed, a plain layer is taken as it is, and no other
/// media type is handled.
pub fn new_async_decompressor(media_type: &MediaType) -> (r: Result<Decompression, FetchError>)
    ensures
        match media_type@ {
            MediaTypeView::ImageLayerGzip => r == Ok::<Decompression, FetchError>(
                Decompression::Gzip,
            ),
            MediaTypeView::ImageLayer => r == Ok::<Decompression, FetchError>(
                Decompression::Identity,
            ),
            MediaTypeView::Other(name) => r matches Err(e) && e@
                == FetchErrorView::UnhandledLayerType(name),
        },
{
    match media_type {
        MediaType::ImageLayerGzip => Ok(Decompression::Gzip),
        MediaType::ImageLayer => Ok(Decompression::Identity),
        MediaType::Other(name) => Err(FetchError::UnhandledLayerType(name.clone())),
    }
}

/// Progress of fetching one layer.
#[derive(Debug, Clone, Copy, PartialEq, Eq)]
pub struct LayerProgress {
    /// Index of the layer in the manifest
    pub layer_index: usize,
    /// Number of bytes downloaded
    pub fetched: u64,
    /// Total number of bytes of the layer
    pub total: u64,
}

impl LayerProgress {
    /// What holds of progress that makes sense for a manifest of `n_layers`
    /// layers: no more is fetched than there is, and the layer is one of
    /// the manifest's.
    pub open spec fn wf(&self, n_layers: nat) -> bool {
        self.fetched <= self.total && self.layer_index < n_layers
    }
}

/// The progress to report once `fetched` bytes of the blob have come.
pub fn layer_status(request: &BlobRequest, fetched: u64) -> (p: LayerProgress)
    ensures
        p.layer_index == request.layer_index,
        p.fetched == fetched,
        p.total == request.size,
        forall|n_layers: nat|
            fetched <= request.size && request.layer_index < n_layers ==> #[trigger] p.wf(n_layers),
{
    LayerProgress { layer_index: request.layer_index, fetched, total: request.size }
}

/// Counts the bytes that a reader has handed on.
#[derive(Debug, Clone, Copy, PartialEq, Eq)]
pub struct ProgressReader {
    fetched: u64,
}

/// The bytes handed on after reads of the given lengths.
pub open spec fn fetched_after(reads: Seq<nat>) -> nat
    decreases reads.len(),
{
    if reads.len() == 0 {
        0
    } else {
        fetched_after(reads.drop_last()) + reads.last()
    }
}

impl ProgressReader {
    /// The number of bytes handed on so far.
    pub closed spec fn view(&self) -> nat {
        self.fetched as nat
    }

    /// A count that starts at nothing.
    pub fn new() -> (p: ProgressReader)
        ensures
            p@ == 0,
    {
        ProgressReader { fetched: 0 }
    }

    /// The number of bytes handed on so far.
    pub fn fetched(&self) -> (n: u64)
        ensures
            n == self@,
    {
        self.fetched
    }

    /// Whether [`ProgressReader::poll_read`] can count a read that filled a
    /// buffer from `filled_before` to `filled_after` bytes.
    pub fn can_count(&self, filled_before: usize, filled_after: usize) -> (r: bool)
        ensures
            r == (filled_before <= filled_after && self@ + (filled_after - filled_before)
                <= u64::MAX),
    {
        filled_before <= filled_after && (filled_after - filled_before) as u64 <= u64::MAX
            - self.fetched
    }

    /// Counts a read that filled a buffer from `filled_before` to
    /// `filled_after` bytes, and gives the new count to publish.
    pub fn poll_read(&mut self, filled_before: usize, filled_after: usize) -> (state: u64)
        requires
            filled_before <= filled_after,
            old(self)@ + (filled_after - filled_before) <= u64::MAX,
        ensures
            final(self)@ == old(self)@ + (filled_after - filled_before),
            state == final(self)@,
            state >= old(self)@,
    {
        let read = (filled_after - filled_before) as u64;
        self.fetched = self.fetched + read;
        self.fetched
    }
}

/// The count never goes down as reads are added.
pub proof fn lemma_progress_is_monotonic(reads: Seq<nat>, i: int, j: int)
    requires
        0 <= i <= j <= reads.len(),
    ensures
        fetched_after(reads.take(i)) <= fetched_after(reads.take(j)),
    decreases j - i,
{
    if i < j {
        lemma_progress_is_monotonic(reads, i, j - 1);
        assert(reads.take(j).drop_last() =~= reads.take(j - 1));
    }
}

/// What a worker and the driver of the proxy amount to together. The
/// worker's value where both succeeded; the failure of the one that failed;
/// and where both failed, the worker's failure: as it is where the driver
/// only saw the pipe break, else under a context that names the driver's
/// root cause, which makes it a failure of the pipeline.
pub open spec fn joined_outcome<T>(worker: Result<T, Failure>, driver: Result<(), Failure>) -> Result<
    T,
    FailureView,
> {
    match (worker, driver) {
        (Ok(t), Ok(())) => Ok(t),
        (Err(w), Err(d)) => if has_suffix(d@.root, "broken pipe"@) {
            Err(w@)
        } else {
            Err(
                w@.context("proxy failure: "@ + d@.root + " and client error"@).of_kind(
                    ErrorKind::Pipeline,
                ),
            )
        },
        (Ok(_), Err(d)) => Err(d@),
        (Err(w), Ok(())) => Err(w@),
    }
}

/// Reconciles the outcome of a worker with the outcome of the driver of the proxy.
pub fn join_fetch<T>(worker: Result<T, Failure>, driver: Result<(), Failure>) -> (r: Result<
    T,
    Failure,
>)
    ensures
        match r {
            Ok(t) => joined_outcome(worker, driver) == Ok::<T, FailureView>(t),
            Err(e) => joined_outcome(worker, driver) == Err::<T, FailureView>(e@),
        },
{
    match (worker, driver) {
        (Ok(t), Ok(())) => Ok(t),
        (Err(worker), Err(driver)) => {
            let text = driver.root_cause();
            if ends_with_str(text, "broken pipe") {
                Err(worker)
            } else {
                let msg = String::from_str("proxy failure: ").concat(text).concat(
                    " and client error",
                );
                let mut both = worker.context(msg.as_str());
                both.kind = ErrorKind::Pipeline;
                Err(both)
            }
        },
        (Ok(_), Err(driver)) => Err(driver),
        (Err(worker), Ok(())) => Err(worker),
    }
}

} // verus!
