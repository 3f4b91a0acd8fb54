//! The configuration of an image, as far as its labels go.

use crate::text::str_eq;
use vstd::prelude::*;

verus! {

/// The label that holds the version of the packaged software.
pub const ANNOTATION_VERSION: &'static str = "org.opencontainers.image.version";

/// A commonly used pre-OCI label for versions.
pub const LABEL_VERSION: &'static str = "version";

/// One label of an image: a key and its value.
#[derive(Debug, Clone, PartialEq, Eq)]
pub struct Label {
    /// The key of the label.
    pub key: String,
    /// The value of the label.
    pub value: String,
}

/// The execution parameters of an image.
#[derive(Debug, Clone, PartialEq, Eq)]
pub struct Config {
    /// The labels of the image, where it has any; no key occurs twice.
    pub labels: Option<Vec<Label>>,
}

/// The configuration of an image.
#[derive(Debug, Clone, PartialEq, Eq)]
pub struct ImageConfiguration {
    /// The execution parameters, where the image has any.
    pub config: Option<Config>,
}

/// The labels as pairs of texts.
pub open spec fn label_views(labels: Seq<Label>) -> Seq<(Seq<char>, Seq<char>)> {
    labels.map_values(|l: Label| (l.key@, l.value@))
}

/// The value of the first label with the key, if there is one.
pub open spec fn label_value(labels: Seq<(Seq<char>, Seq<char>)>, key: Seq<char>) -> Option<
    Seq<char>,
>
    decreases labels.len(),
{
    if labels.len() == 0 {
        None
    } else if labels[0].0 == key {
        Some(labels[0].1)
    } else {
        label_value(labels.drop_first(), key)
    }
}

/// The labels of a configuration, where it has any.
pub open spec fn labels_in(config: ImageConfiguration) -> Option<Seq<(Seq<char>, Seq<char>)>> {
    match config.config {
        Some(c) => match c.labels {
            Some(labels) => Some(label_views(labels@)),
            None => None,
        },
        None => None,
    }
}

/// The version that a configuration states: the value of the label
/// `org.opencontainers.image.version`, else that of the label `version`.
pub open spec fn version_in(config: ImageConfiguration) -> Option<Seq<char>> {
    match labels_in(config) {
        Some(labels) => match label_value(labels, ANNOTATION_VERSION@) {
            Some(v) => Some(v),
            None => label_value(labels, LABEL_VERSION@),
        },
        None => None,
    }
}

/// Convenience helper to return the labels, if present.
pub fn labels_of(config: &ImageConfiguration) -> (r: Option<&Vec<Label>>)
    ensures
        match r {
            Some(labels) => labels_in(*config) == Some(label_views(labels@)),
            None => labels_in(*config) is None,
        },
{
    match &config.config {
        Some(c) => match &c.labels {
            Some(labels) => Some(labels),
            None => None,
        },
        None => None,
    }
}

/// The value of the first label with the key.
fn get_label<'a>(labels: &'a Vec<Label>, key: &str) -> (r: Option<&'a str>)
    ensures
        match r {
            Some(v) => label_value(label_views(labels@), key@) == Some(v@),
            None => label_value(label_views(labels@), key@) is None,
        },
{
    let ghost lv = label_views(labels@);
    let n = labels.len();
    let mut i: usize = 0;
    assert(lv.skip(0) =~= lv);
    while i < n
        invariant
            n == labels@.len(),
            lv == label_views(labels@),
            i <= n,
            label_value(lv, key@) == label_value(lv.skip(i as int), key@),
        decreases n - i,
    {
        proof {
            let rest = lv.skip(i as int);
            assert(rest[0] == lv[i as int]);
            assert(rest.drop_first() =~= lv.skip(i + 1));
        }
        if str_eq(labels[i].key.as_str(), key) {
            return Some(labels[i].value.as_str());
        }
        i = i + 1;
    }
    None
}

/// Retrieve the version number from an image configuration.
pub fn version_for_config(config: &ImageConfiguration) -> (r: Option<&str>)
    ensures
        match r {
            Some(v) => version_in(*config) == Some(v@),
            None => version_in(*config) is None,
        },
{
    match labels_of(config) {
        Some(labels) => match get_label(labels, ANNOTATION_VERSION) {
            Some(v) => Some(v),
            None => get_label(labels, LABEL_VERSION),
        },
        None => None,
    }
}

} // verus!
