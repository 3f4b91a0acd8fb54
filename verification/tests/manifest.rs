use ostree_ext::container::manifest::{
    layersum, Descriptor, DiffSummary, ImageManifest, ManifestDiff, MediaType,
};

fn layer(digest: &str, size: i64) -> Descriptor {
    Descriptor {
        media_type: MediaType::ImageLayerGzip,
        digest: digest.to_string(),
        size,
    }
}

fn manifest(layers: &[(&str, i64)]) -> ImageManifest {
    ImageManifest {
        layers: layers.iter().map(|&(d, s)| layer(d, s)).collect(),
    }
}

fn digests(layers: &[&Descriptor]) -> Vec<String> {
    layers.iter().map(|l| l.digest.clone()).collect()
}

#[test]
fn diff_of_a_manifest_to_itself_is_empty() {
    let a = manifest(&[("sha256:bb", 10), ("sha256:aa", 20), ("sha256:bb", 10)]);
    let d = ManifestDiff::new(&a, &a);
    assert!(d.removed.is_empty());
    assert!(d.added.is_empty());
    assert_eq!(d.from, &a);
    assert_eq!(d.to, &a);
}

#[test]
fn diff_is_sorted_by_digest() {
    let a = manifest(&[("sha256:ff", 1), ("sha256:10", 2), ("sha256:aa", 3), ("sha256:0f", 4)]);
    let b = manifest(&[("sha256:aa", 3), ("sha256:zz", 5), ("sha256:b", 6), ("sha256:ab", 7)]);
    let d = ManifestDiff::new(&a, &b);
    assert_eq!(digests(&d.removed), vec!["sha256:0f", "sha256:10", "sha256:ff"]);
    assert_eq!(digests(&d.added), vec!["sha256:ab", "sha256:b", "sha256:zz"]);
}

#[test]
fn added_one_way_is_removed_the_other_way() {
    let a = manifest(&[("sha256:1", 1), ("sha256:2", 2), ("sha256:3", 3)]);
    let b = manifest(&[("sha256:3", 3), ("sha256:4", 4), ("sha256:0", 9)]);
    let ab = ManifestDiff::new(&a, &b);
    let ba = ManifestDiff::new(&b, &a);
    assert_eq!(ab.added, ba.removed);
    assert_eq!(ab.removed, ba.added);
    assert_eq!(digests(&ab.added), vec!["sha256:0", "sha256:4"]);
    assert_eq!(digests(&ab.removed), vec!["sha256:1", "sha256:2"]);
}

#[test]
fn a_digest_counts_once_and_its_last_layer_stands_for_it() {
    let a = manifest(&[("sha256:dup", 1), ("sha256:x", 2), ("sha256:dup", 7)]);
    let b = manifest(&[("sha256:x", 2)]);
    let d = ManifestDiff::new(&a, &b);
    assert_eq!(d.removed.len(), 1);
    assert_eq!(d.removed[0], &layer("sha256:dup", 7));
    assert!(d.added.is_empty());
}

#[test]
fn summary_counts_and_sizes() {
    let a = manifest(&[("sha256:1", 100), ("sha256:2", 200)]);
    let b = manifest(&[("sha256:2", 200), ("sha256:3", 4000), ("sha256:4", 50000)]);
    let d = ManifestDiff::new(&a, &b);
    assert_eq!(
        d.summary(),
        Some(DiffSummary {
            total: 3,
            total_size: 54200,
            n_removed: 1,
            removed_size: 100,
            n_added: 2,
            added_size: 54000,
        })
    );
}

#[test]
fn summary_in_three_lines() {
    let s = DiffSummary {
        total: 3,
        total_size: 54200,
        n_removed: 1,
        removed_size: 100,
        n_added: 12345,
        added_size: 54000,
    };
    assert_eq!(
        s.to_text("54.2 kB", "100 bytes", "54.0 kB"),
        "Total new layers: 3     Size: 54.2 kB\n\
         Removed layers:   1     Size: 100 bytes\n\
         Added layers:     12345  Size: 54.0 kB"
    );
    let s = DiffSummary {
        total: 1000,
        total_size: 0,
        n_removed: 0,
        removed_size: 0,
        n_added: 10,
        added_size: 0,
    };
    assert_eq!(
        s.to_text("a", "b", "c"),
        "Total new layers: 1000  Size: a\nRemoved layers:   0     Size: b\nAdded layers:     10    Size: c"
    );
    assert_eq!(
        s.to_text("a", "b", "c"),
        format!(
            "Total new layers: {:<4}  Size: a\nRemoved layers:   {:<4}  Size: b\nAdded layers:     {:<4}  Size: c",
            1000, 0, 10
        )
    );
}

#[test]
fn sums_that_do_not_fit_are_none() {
    let big = layer("sha256:big", i64::MAX);
    let neg = layer("sha256:neg", -1);
    assert_eq!(layersum(&vec![&big, &big]), Some(u64::MAX - 1));
    assert_eq!(layersum(&vec![&big, &big, &big]), None);
    assert_eq!(layersum(&vec![&neg]), Some(u64::MAX));
    assert_eq!(layersum(&vec![]), Some(0));
    let a = ImageManifest { layers: vec![] };
    let b = ImageManifest {
        layers: vec![layer("sha256:a", -1), layer("sha256:b", 1)],
    };
    assert_eq!(ManifestDiff::new(&a, &b).summary(), None);
}

#[test]
fn media_types_and_descriptors_compare_by_content() {
    let other = MediaType::Other("application/vnd.oci.image.layer.v1.tar+zstd".to_string());
    assert!(other.same_as(&other.duplicate()));
    assert!(!other.same_as(&MediaType::ImageLayer));
    assert!(MediaType::ImageLayer.same_as(&MediaType::ImageLayer));
    assert!(!MediaType::ImageLayer.same_as(&MediaType::ImageLayerGzip));
    assert!(layer("a", 1).same_as(&layer("a", 1)));
    assert!(!layer("a", 1).same_as(&layer("a", 2)));
    assert!(!layer("a", 1).same_as(&layer("b", 1)));
}
