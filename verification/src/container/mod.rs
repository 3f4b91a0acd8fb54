//! Container images that wrap a commit.
//!
//! An image is named by a transport and a name, and fetched under a policy
//! for signature verification. The three are written together as one text,
//! such as `ostree-remote-registry:fedora:quay.io/coreos/fedora-coreos:stable`.
//! This module parses and prints those texts.

pub mod image_config;
pub mod manifest;
pub mod proxy_config;
pub mod unencapsulate;

use crate::failure::ErrorKind;
use crate::text::{
    first_index, has_prefix, lemma_first_index_bounds, lemma_split_first_at, split_first,
    split_once_char, str_eq, strip_prefix_str,
};
use vstd::prelude::*;

verus! {

/// The label injected into a container image that contains the commit digest.
pub const OSTREE_COMMIT_LABEL: &'static str = "ostree.commit";

/// The name of an annotation attached to a layer which names the
/// packages/components which are part of it.
pub const CONTENT_ANNOTATION: &'static str = "ostree.components";

/// The character that separates values in [`CONTENT_ANNOTATION`].
pub const COMPONENT_SEPARATOR: char = ',';

/// A backend/transport for OCI/Docker images.
#[derive(Copy, Clone, Debug, PartialEq, Eq, Structural)]
pub enum Transport {
    /// A remote Docker/OCI registry (`registry:` or `docker://`)
    Registry,
    /// A local OCI directory (`oci:`)
    OciDir,
    /// A local OCI archive tarball (`oci-archive:`)
    OciArchive,
    /// Local container storage (`containers-storage:`)
    ContainerStorage,
}

/// Combination of a remote image reference and transport.
#[derive(Debug, Clone, PartialEq, Eq)]
pub struct ImageReference {
    /// The storage and transport for the image
    pub transport: Transport,
    /// The image name (e.g. `quay.io/somerepo/someimage:latest`)
    pub name: String,
}

/// Policy for signature verification.
#[derive(Debug, Clone, PartialEq, Eq)]
pub enum SignatureSource {
    /// Fetches will use the named remote for signature verification of the commit.
    OstreeRemote(String),
    /// Fetches will defer to the `containers-policy.json`, but we make a best effort to reject `default: insecureAcceptAnything` policy.
    ContainerPolicy,
    /// NOT RECOMMENDED.  Fetches will defer to the `containers-policy.json` default which is usually `insecureAcceptAnything`.
    ContainerPolicyAllowInsecure,
}

/// Combination of a signature verification mechanism, and a standard container image reference.
#[derive(Debug, Clone, PartialEq, Eq)]
pub struct OstreeImageReference {
    /// The signature verification mechanism.
    pub sigverify: SignatureSource,
    /// The container image reference.
    pub imgref: ImageReference,
}

/// The mathematical content of an [`ImageReference`].
pub struct ImageReferenceView {
    pub transport: Transport,
    pub name: Seq<char>,
}

/// The mathematical content of a [`SignatureSource`].
pub enum SignatureSourceView {
    OstreeRemote(Seq<char>),
    ContainerPolicy,
    ContainerPolicyAllowInsecure,
}

/// The mathematical content of an [`OstreeImageReference`].
pub struct OstreeImageReferenceView {
    pub sigverify: SignatureSourceView,
    pub imgref: ImageReferenceView,
}

impl View for ImageReference {
    type V = ImageReferenceView;

    open spec fn view(&self) -> ImageReferenceView {
        ImageReferenceView { transport: self.transport, name: self.name@ }
    }
}

impl View for SignatureSource {
    type V = SignatureSourceView;

    open spec fn view(&self) -> SignatureSourceView {
        match self {
            SignatureSource::OstreeRemote(r) => SignatureSourceView::OstreeRemote(r@),
            SignatureSource::ContainerPolicy => SignatureSourceView::ContainerPolicy,
            SignatureSource::ContainerPolicyAllowInsecure => {
                SignatureSourceView::ContainerPolicyAllowInsecure
            },
        }
    }
}

impl View for OstreeImageReference {
    type V = OstreeImageReferenceView;

    open spec fn view(&self) -> OstreeImageReferenceView {
        OstreeImageReferenceView { sigverify: self.sigverify@, imgref: self.imgref@ }
    }
}

/// Why a text is not a reference.
#[derive(Debug, Clone, PartialEq, Eq)]
pub enum ReferenceError {
    /// The text holds no `:`; the field holds the text.
    MissingColon(String),
    /// The transport is none of the known ones; the field holds it.
    UnknownTransport(String),
    /// Nothing follows the transport; the field holds the text.
    EmptyName(String),
    /// `docker:` is not followed by `//`; the field holds the text.
    MissingSlashes(String),
    /// The text is no signature source; the field holds it.
    InvalidSignatureSource(String),
    /// No `:` separates the remote from the image; the field holds the text.
    MissingSecondColon(String),
    /// The scheme is none of the known ones; the field holds it.
    InvalidScheme(String),
}

/// The mathematical content of a [`ReferenceError`].
pub enum ReferenceErrorView {
    MissingColon(Seq<char>),
    UnknownTransport(Seq<char>),
    EmptyName(Seq<char>),
    MissingSlashes(Seq<char>),
    InvalidSignatureSource(Seq<char>),
    MissingSecondColon(Seq<char>),
    InvalidScheme(Seq<char>),
}

impl View for ReferenceError {
    type V = ReferenceErrorView;

    open spec fn view(&self) -> ReferenceErrorView {
        match self {
            ReferenceError::MissingColon(s) => ReferenceErrorView::MissingColon(s@),
            ReferenceError::UnknownTransport(s) => ReferenceErrorView::UnknownTransport(s@),
            ReferenceError::EmptyName(s) => ReferenceErrorView::EmptyName(s@),
            ReferenceError::MissingSlashes(s) => ReferenceErrorView::MissingSlashes(s@),
            ReferenceError::InvalidSignatureSource(s) => ReferenceErrorView::InvalidSignatureSource(
                s@,
            ),
            ReferenceError::MissingSecondColon(s) => ReferenceErrorView::MissingSecondColon(s@),
            ReferenceError::InvalidScheme(s) => ReferenceErrorView::InvalidScheme(s@),
        }
    }
}

impl ReferenceError {
    /// The kind of this failure: a text that is no reference is malformed.
    pub fn kind(&self) -> (k: ErrorKind)
        ensures
            k == ErrorKind::Parse,
    {
        ErrorKind::Parse
    }

    /// The message for this failure.
    pub fn message(&self) -> (m: String)
        ensures
            m@ == match self@ {
                ReferenceErrorView::MissingColon(s) => "Missing ':' in "@ + s,
                ReferenceErrorView::UnknownTransport(s) => "Unknown transport '"@ + s + "'"@,
                ReferenceErrorView::EmptyName(s) => "Invalid empty name in "@ + s,
                ReferenceErrorView::MissingSlashes(s) => "Missing // in docker:// in "@ + s,
                ReferenceErrorView::InvalidSignatureSource(s) => "Invalid signature source: "@ + s,
                ReferenceErrorView::MissingSecondColon(s) => "Missing second ':' in "@ + s,
                ReferenceErrorView::InvalidScheme(s) => "Invalid ostree image reference scheme: "@
                    + s,
            },
    {
        match self {
            ReferenceError::MissingColon(s) => String::from_str("Missing ':' in ").concat(
                s.as_str(),
            ),
            ReferenceError::UnknownTransport(s) => String::from_str("Unknown transport '").concat(
                s.as_str(),
            ).concat("'"),
            ReferenceError::EmptyName(s) => String::from_str("Invalid empty name in ").concat(
                s.as_str(),
            ),
            ReferenceError::MissingSlashes(s) => String::from_str(
                "Missing // in docker:// in ",
            ).concat(s.as_str()),
            ReferenceError::InvalidSignatureSource(s) => String::from_str(
                "Invalid signature source: ",
            ).concat(s.as_str()),
            ReferenceError::MissingSecondColon(s) => String::from_str(
                "Missing second ':' in ",
            ).concat(s.as_str()),
            ReferenceError::InvalidScheme(s) => String::from_str(
                "Invalid ostree image reference scheme: ",
            ).concat(s.as_str()),
        }
    }
}

/// The transport that a tag stands for.
pub open spec fn transport_of_tag(tag: Seq<char>) -> Option<Transport> {
    if tag == "registry"@ || tag == "docker"@ {
        Some(Transport::Registry)
    } else if tag == "oci"@ {
        Some(Transport::OciDir)
    } else if tag == "oci-archive"@ {
        Some(Transport::OciArchive)
    } else if tag == "containers-storage"@ {
        Some(Transport::ContainerStorage)
    } else {
        None
    }
}

/// How a transport is printed in front of a name.
pub open spec fn transport_text(t: Transport) -> Seq<char> {
    match t {
        Transport::Registry => "docker://"@,
        Transport::OciArchive => "oci-archive:"@,
        Transport::OciDir => "oci:"@,
        Transport::ContainerStorage => "containers-storage:"@,
    }
}

/// The name of an image, which must not be empty, as the outcome of
/// reading the text `s`.
pub open spec fn named(transport: Transport, name: Seq<char>, s: Seq<char>) -> Result<
    ImageReferenceView,
    ReferenceErrorView,
> {
    if name.len() == 0 {
        Err(ReferenceErrorView::EmptyName(s))
    } else {
        Ok(ImageReferenceView { transport, name })
    }
}

/// What a text means as an image reference: a transport tag, `:`, and a
/// name that is not empty; after `docker` the name follows `//`.
pub open spec fn parse_image_reference(s: Seq<char>) -> Result<
    ImageReferenceView,
    ReferenceErrorView,
> {
    match split_first(s, ':') {
        None => Err(ReferenceErrorView::MissingColon(s)),
        Some((tag, name)) => match transport_of_tag(tag) {
            None => Err(ReferenceErrorView::UnknownTransport(tag)),
            Some(transport) => if name.len() == 0 {
                Err(ReferenceErrorView::EmptyName(s))
            } else if tag == "docker"@ {
                if has_prefix(name, "//"@) {
                    named(transport, name.subrange("//"@.len() as int, name.len() as int), s)
                } else {
                    Err(ReferenceErrorView::MissingSlashes(s))
                }
            } else {
                named(transport, name, s)
            },
        },
    }
}

/// How an image reference is printed.
pub open spec fn print_image_reference(r: ImageReferenceView) -> Seq<char> {
    transport_text(r.transport) + r.name
}

/// What a text means as a signature source.
pub open spec fn parse_signature_source(s: Seq<char>) -> Result<
    SignatureSourceView,
    ReferenceErrorView,
> {
    if s == "ostree-image-signed"@ {
        Ok(SignatureSourceView::ContainerPolicy)
    } else if s == "ostree-unverified-image"@ {
        Ok(SignatureSourceView::ContainerPolicyAllowInsecure)
    } else if has_prefix(s, "ostree-remote-image:"@) {
        Ok(
            SignatureSourceView::OstreeRemote(
                s.subrange("ostree-remote-image:"@.len() as int, s.len() as int),
            ),
        )
    } else {
        Err(ReferenceErrorView::InvalidSignatureSource(s))
    }
}

/// How a signature source is printed.
pub open spec fn print_signature_source(v: SignatureSourceView) -> Seq<char> {
    match v {
        SignatureSourceView::OstreeRemote(r) => "ostree-remote-image:"@ + r,
        SignatureSourceView::ContainerPolicy => "ostree-image-signed"@,
        SignatureSourceView::ContainerPolicyAllowInsecure => "ostree-unverified-image"@,
    }
}

/// A signature source with the image reference that `rest` means.
pub open spec fn with_image(sigverify: SignatureSourceView, rest: Seq<char>) -> Result<
    OstreeImageReferenceView,
    ReferenceErrorView,
> {
    match parse_image_reference(rest) {
        Ok(imgref) => Ok(OstreeImageReferenceView { sigverify, imgref }),
        Err(e) => Err(e),
    }
}

/// What a text means as a signature source with an image reference: a
/// scheme, `:`, and the rest. After `ostree-image-signed` and
/// `ostree-unverified-image` the rest is an image reference; after
/// `ostree-remote-image` it is a remote, `:`, and an image reference. The two
/// `-registry` schemes are short for an image reference with the transport
/// `registry`.
pub open spec fn parse_ostree_image_reference(s: Seq<char>) -> Result<
    OstreeImageReferenceView,
    ReferenceErrorView,
> {
    match split_first(s, ':') {
        None => Err(ReferenceErrorView::MissingColon(s)),
        Some((first, second)) => if first == "ostree-image-signed"@ {
            with_image(SignatureSourceView::ContainerPolicy, second)
        } else if first == "ostree-unverified-image"@ {
            with_image(SignatureSourceView::ContainerPolicyAllowInsecure, second)
        } else if first == "ostree-unverified-registry"@ {
            with_image(SignatureSourceView::ContainerPolicyAllowInsecure, "registry:"@ + second)
        } else if first == "ostree-remote-registry"@ {
            match split_first(second, ':') {
                None => Err(ReferenceErrorView::MissingSecondColon(s)),
                Some((remote, rest)) => with_image(
                    SignatureSourceView::OstreeRemote(remote),
                    "registry:"@ + rest,
                ),
            }
        } else if first == "ostree-remote-image"@ {
            match split_first(second, ':') {
                None => Err(ReferenceErrorView::MissingSecondColon(s)),
                Some((remote, rest)) => with_image(SignatureSourceView::OstreeRemote(remote), rest),
            }
        } else {
            Err(ReferenceErrorView::InvalidScheme(first))
        },
    }
}

/// How a signature source with an image reference is printed.
pub open spec fn print_ostree_image_reference(r: OstreeImageReferenceView) -> Seq<char> {
    print_signature_source(r.sigverify) + ":"@ + print_image_reference(r.imgref)
}

/// The content of the outcome of parsing a transport.
pub open spec fn transport_outcome(tag: Seq<char>) -> Result<Transport, ReferenceErrorView> {
    match transport_of_tag(tag) {
        Some(t) => Ok(t),
        None => Err(ReferenceErrorView::UnknownTransport(tag)),
    }
}

impl Transport {
    /// Reads a transport tag: `registry` or `docker`, `oci`, `oci-archive`,
    /// `containers-storage`.
    pub fn try_from(value: &str) -> (r: Result<Transport, ReferenceError>)
        ensures
            match r {
                Ok(t) => transport_outcome(value@) == Ok::<Transport, ReferenceErrorView>(t),
                Err(e) => transport_outcome(value@) == Err::<Transport, ReferenceErrorView>(e@),
            },
    {
        if str_eq(value, "registry") || str_eq(value, "docker") {
            Ok(Transport::Registry)
        } else if str_eq(value, "oci") {
            Ok(Transport::OciDir)
        } else if str_eq(value, "oci-archive") {
            Ok(Transport::OciArchive)
        } else if str_eq(value, "containers-storage") {
            Ok(Transport::ContainerStorage)
        } else {
            Err(ReferenceError::UnknownTransport(String::from_str(value)))
        }
    }

    /// The text that stands for this transport in front of a name.
    pub fn to_string(&self) -> (s: String)
        ensures
            s@ == transport_text(*self),
    {
        match self {
            Transport::Registry => String::from_str("docker://"),
            Transport::OciArchive => String::from_str("oci-archive:"),
            Transport::OciDir => String::from_str("oci:"),
            Transport::ContainerStorage => String::from_str("containers-storage:"),
        }
    }
}

impl ImageReference {
    /// Reads an image reference such as `registry:quay.io/exampleos/blah`.
    pub fn try_from(value: &str) -> (r: Result<ImageReference, ReferenceError>)
        ensures
            match r {
                Ok(v) => parse_image_reference(value@) == Ok::<
                    ImageReferenceView,
                    ReferenceErrorView,
                >(v@),
                Err(e) => parse_image_reference(value@) == Err::<
                    ImageReferenceView,
                    ReferenceErrorView,
                >(e@),
            },
    {
        let (transport_name, name) = match split_once_char(value, ':') {
            Some(halves) => halves,
            None => {
                return Err(ReferenceError::MissingColon(String::from_str(value)));
            },
        };
        let transport = match Transport::try_from(transport_name) {
            Ok(t) => t,
            Err(e) => {
                return Err(e);
            },
        };
        if name.unicode_len() == 0 {
            return Err(ReferenceError::EmptyName(String::from_str(value)));
        }
        let name = if str_eq(transport_name, "docker") {
            match strip_prefix_str(name, "//") {
                Some(rest) => rest,
                None => {
                    return Err(ReferenceError::MissingSlashes(String::from_str(value)));
                },
            }
        } else {
            name
        };
        if name.unicode_len() == 0 {
            return Err(ReferenceError::EmptyName(String::from_str(value)));
        }
        Ok(ImageReference { transport, name: String::from_str(name) })
    }

    /// Reads an image reference; the same as [`ImageReference::try_from`].
    pub fn from_str(s: &str) -> (r: Result<ImageReference, ReferenceError>)
        ensures
            match r {
                Ok(v) => parse_image_reference(s@) == Ok::<ImageReferenceView, ReferenceErrorView>(
                    v@,
                ),
                Err(e) => parse_image_reference(s@) == Err::<
                    ImageReferenceView,
                    ReferenceErrorView,
                >(e@),
            },
    {
        ImageReference::try_from(s)
    }

    /// Prints the reference in its canonical form, with `docker://` for a registry.
    pub fn to_string(&self) -> (s: String)
        ensures
            s@ == print_image_reference(self@),
    {
        self.transport.to_string().concat(self.name.as_str())
    }
}

impl SignatureSource {
    /// Reads a signature source.
    pub fn try_from(value: &str) -> (r: Result<SignatureSource, ReferenceError>)
        ensures
            match r {
                Ok(v) => parse_signature_source(value@) == Ok::<
                    SignatureSourceView,
                    ReferenceErrorView,
                >(v@),
                Err(e) => parse_signature_source(value@) == Err::<
                    SignatureSourceView,
                    ReferenceErrorView,
                >(e@),
            },
    {
        if str_eq(value, "ostree-image-signed") {
            Ok(SignatureSource::ContainerPolicy)
        } else if str_eq(value, "ostree-unverified-image") {
            Ok(SignatureSource::ContainerPolicyAllowInsecure)
        } else {
            match strip_prefix_str(value, "ostree-remote-image:") {
                Some(rest) => Ok(SignatureSource::OstreeRemote(String::from_str(rest))),
                None => Err(ReferenceError::InvalidSignatureSource(String::from_str(value))),
            }
        }
    }

    /// Reads a signature source; the same as [`SignatureSource::try_from`].
    pub fn from_str(s: &str) -> (r: Result<SignatureSource, ReferenceError>)
        ensures
            match r {
                Ok(v) => parse_signature_source(s@) == Ok::<
                    SignatureSourceView,
                    ReferenceErrorView,
                >(v@),
                Err(e) => parse_signature_source(s@) == Err::<
                    SignatureSourceView,
                    ReferenceErrorView,
                >(e@),
            },
    {
        SignatureSource::try_from(s)
    }

    /// Prints the signature source.
    pub fn to_string(&self) -> (s: String)
        ensures
            s@ == print_signature_source(self@),
    {
        match self {
            SignatureSource::OstreeRemote(r) => String::from_str("ostree-remote-image:").concat(
                r.as_str(),
            ),
            SignatureSource::ContainerPolicy => String::from_str("ostree-image-signed"),
            SignatureSource::ContainerPolicyAllowInsecure => String::from_str(
                "ostree-unverified-image",
            ),
        }
    }
}

/// Reads the image reference that follows a scheme.
fn image_after(sigverify: SignatureSource, rest: &str) -> (r: Result<
    OstreeImageReference,
    ReferenceError,
>)
    ensures
        match r {
            Ok(v) => with_image(sigverify@, rest@) == Ok::<
                OstreeImageReferenceView,
                ReferenceErrorView,
            >(v@),
            Err(e) => with_image(sigverify@, rest@) == Err::<
                OstreeImageReferenceView,
                ReferenceErrorView,
            >(e@),
        },
{
    match ImageReference::try_from(rest) {
        Ok(imgref) => Ok(OstreeImageReference { sigverify, imgref }),
        Err(e) => Err(e),
    }
}

impl OstreeImageReference {
    /// Reads a signature source with an image reference, in its long form or
    /// in one of the two short forms for registries.
    pub fn try_from(value: &str) -> (r: Result<OstreeImageReference, ReferenceError>)
        ensures
            match r {
                Ok(v) => parse_ostree_image_reference(value@) == Ok::<
                    OstreeImageReferenceView,
                    ReferenceErrorView,
                >(v@),
                Err(e) => parse_ostree_image_reference(value@) == Err::<
                    OstreeImageReferenceView,
                    ReferenceErrorView,
                >(e@),
            },
    {
        let (first, second) = match split_once_char(value, ':') {
            Some(halves) => halves,
            None => {
                return Err(ReferenceError::MissingColon(String::from_str(value)));
            },
        };
        if str_eq(first, "ostree-image-signed") {
            image_after(SignatureSource::ContainerPolicy, second)
        } else if str_eq(first, "ostree-unverified-image") {
            image_after(SignatureSource::ContainerPolicyAllowInsecure, second)
        } else if str_eq(first, "ostree-unverified-registry") {
            let rest = String::from_str("registry:").concat(second);
            image_after(SignatureSource::ContainerPolicyAllowInsecure, rest.as_str())
        } else if str_eq(first, "ostree-remote-registry") {
            match split_once_char(second, ':') {
                None => Err(ReferenceError::MissingSecondColon(String::from_str(value))),
                Some((remote, rest)) => {
                    let rest = String::from_str("registry:").concat(rest);
                    image_after(
                        SignatureSource::OstreeRemote(String::from_str(remote)),
                        rest.as_str(),
                    )
                },
            }
        } else if str_eq(first, "ostree-remote-image") {
            match split_once_char(second, ':') {
                None => Err(ReferenceError::MissingSecondColon(String::from_str(value))),
                Some((remote, rest)) => image_after(
                    SignatureSource::OstreeRemote(String::from_str(remote)),
                    rest,
                ),
            }
        } else {
            Err(ReferenceError::InvalidScheme(String::from_str(first)))
        }
    }

    /// Reads a signature source with an image reference; the same as
    /// [`OstreeImageReference::try_from`].
    pub fn from_str(s: &str) -> (r: Result<OstreeImageReference, ReferenceError>)
        ensures
            match r {
                Ok(v) => parse_ostree_image_reference(s@) == Ok::<
                    OstreeImageReferenceView,
                    ReferenceErrorView,
                >(v@),
                Err(e) => parse_ostree_image_reference(s@) == Err::<
                    OstreeImageReferenceView,
                    ReferenceErrorView,
                >(e@),
            },
    {
        OstreeImageReference::try_from(s)
    }

    /// Prints the reference in its canonical long form.
    pub fn to_string(&self) -> (s: String)
        ensures
            s@ == print_ostree_image_reference(self@),
    {
        self.sigverify.to_string().concat(":").concat(self.imgref.to_string().as_str())
    }
}

/// Whether an image reference has a name.
pub open spec fn printable_image(r: ImageReferenceView) -> bool {
    r.name.len() > 0
}

/// Whether a reference can be printed and read back: its image has a name,
/// and the name of its remote, where it has one, holds no `:`.
pub open spec fn printable(r: OstreeImageReferenceView) -> bool {
    &&& printable_image(r.imgref)
    &&& r.sigverify matches SignatureSourceView::OstreeRemote(remote) ==> !remote.contains(':')
}

/// Reading what was printed for an image reference with a name gives that
/// reference back.
pub proof fn lemma_image_reference_round_trip(r: ImageReferenceView)
    requires
        printable_image(r),
    ensures
        parse_image_reference(print_image_reference(r)) == Ok::<
            ImageReferenceView,
            ReferenceErrorView,
        >(r),
{
    reveal_strlit("registry");
    reveal_strlit("docker");
    reveal_strlit("oci");
    reveal_strlit("oci-archive");
    reveal_strlit("containers-storage");
    reveal_strlit("docker://");
    reveal_strlit("oci-archive:");
    reveal_strlit("oci:");
    reveal_strlit("containers-storage:");
    reveal_strlit("//");
    let s = print_image_reference(r);
    match r.transport {
        Transport::Registry => {
            let tag = "docker"@;
            let rest = "//"@ + r.name;
            assert(s =~= tag + seq![':'] + rest);
            assert(!tag.contains(':'));
            lemma_split_first_at(tag, ':', rest);
            assert(rest.subrange(0, 2) =~= "//"@);
            assert(rest.subrange(2, rest.len() as int) =~= r.name);
        },
        Transport::OciDir => {
            let tag = "oci"@;
            assert(s =~= tag + seq![':'] + r.name);
            assert(!tag.contains(':'));
            lemma_split_first_at(tag, ':', r.name);
        },
        Transport::OciArchive => {
            let tag = "oci-archive"@;
            assert(s =~= tag + seq![':'] + r.name);
            assert(!tag.contains(':'));
            lemma_split_first_at(tag, ':', r.name);
        },
        Transport::ContainerStorage => {
            let tag = "containers-storage"@;
            assert(s =~= tag + seq![':'] + r.name);
            assert(!tag.contains(':'));
            lemma_split_first_at(tag, ':', r.name);
        },
    }
}

/// A reference that was read can be printed and read back: its image has
/// a name, and the name of its remote holds no `:`.
pub proof fn lemma_read_reference_is_printable(s: Seq<char>)
    ensures
        parse_image_reference(s) matches Ok(r) ==> printable_image(r),
        parse_ostree_image_reference(s) matches Ok(r) ==> printable(r),
{
    match parse_ostree_image_reference(s) {
        Ok(r) => match r.sigverify {
            SignatureSourceView::OstreeRemote(remote) => {
                let second = split_first(s, ':')->Some_0.1;
                lemma_first_index_bounds(second, ':');
                let i = first_index(second, ':');
                assert(remote == second.subrange(0, i));
                assert(!remote.contains(':')) by {
                    if remote.contains(':') {
                        let j = choose|j: int| 0 <= j < remote.len() && remote[j] == ':';
                        assert(second[j] == ':');
                    }
                }
            },
            _ => {},
        },
        Err(_) => {},
    }
}

/// The canonical form is stable: what was read prints to a text that reads
/// back as the same reference.
pub proof fn lemma_printing_what_was_read(s: Seq<char>)
    ensures
        parse_ostree_image_reference(s) matches Ok(r) ==> parse_ostree_image_reference(
            print_ostree_image_reference(r),
        ) == Ok::<OstreeImageReferenceView, ReferenceErrorView>(r),
{
    lemma_read_reference_is_printable(s);
    match parse_ostree_image_reference(s) {
        Ok(r) => {
            lemma_reference_round_trip(r);
        },
        Err(_) => {},
    }
}

/// Reading what was printed for a signature source gives that source back.
pub proof fn lemma_signature_source_round_trip(v: SignatureSourceView)
    ensures
        parse_signature_source(print_signature_source(v)) == Ok::<
            SignatureSourceView,
            ReferenceErrorView,
        >(v),
{
    reveal_strlit("ostree-image-signed");
    reveal_strlit("ostree-unverified-image");
    reveal_strlit("ostree-remote-image:");
    match v {
        SignatureSourceView::OstreeRemote(r) => {
            let p = "ostree-remote-image:"@;
            let s = p + r;
            assert(s[7] == 'r');
            assert("ostree-image-signed"@[7] == 'i');
            assert("ostree-unverified-image"@[7] == 'u');
            assert(s.subrange(0, p.len() as int) =~= p);
            assert(s.subrange(p.len() as int, s.len() as int) =~= r);
        },
        SignatureSourceView::ContainerPolicy => {},
        SignatureSourceView::ContainerPolicyAllowInsecure => {
            assert("ostree-unverified-image"@.len() != "ostree-image-signed"@.len());
        },
    }
}

/// Reading what was printed for a printable reference gives that reference
/// back.
pub proof fn lemma_reference_round_trip(r: OstreeImageReferenceView)
    requires
        printable(r),
    ensures
        parse_ostree_image_reference(print_ostree_image_reference(r)) == Ok::<
            OstreeImageReferenceView,
            ReferenceErrorView,
        >(r),
{
    reveal_strlit("ostree-image-signed");
    reveal_strlit("ostree-unverified-image");
    reveal_strlit("ostree-unverified-registry");
    reveal_strlit("ostree-remote-registry");
    reveal_strlit("ostree-remote-image");
    reveal_strlit("ostree-remote-image:");
    reveal_strlit(":");
    lemma_image_reference_round_trip(r.imgref);
    let img = print_image_reference(r.imgref);
    let s = print_ostree_image_reference(r);
    match r.sigverify {
        SignatureSourceView::ContainerPolicy => {
            let first = "ostree-image-signed"@;
            assert(s =~= first + seq![':'] + img);
            assert(!first.contains(':'));
            lemma_split_first_at(first, ':', img);
        },
        SignatureSourceView::ContainerPolicyAllowInsecure => {
            let first = "ostree-unverified-image"@;
            assert(s =~= first + seq![':'] + img);
            assert(!first.contains(':'));
            lemma_split_first_at(first, ':', img);
        },
        SignatureSourceView::OstreeRemote(remote) => {
            let first = "ostree-remote-image"@;
            let second = remote + seq![':'] + img;
            assert(s =~= first + seq![':'] + second);
            assert(!first.contains(':'));
            lemma_split_first_at(first, ':', second);
            lemma_split_first_at(remote, ':', img);
            assert(first[7] == 'r');
            assert("ostree-image-signed"@[7] == 'i');
        },
    }
}

} // verus!
