use ostree_ext::container::image_config::{
    labels_of, version_for_config, Config, ImageConfiguration, Label, ANNOTATION_VERSION,
    LABEL_VERSION,
};

fn config(labels: &[(&str, &str)]) -> ImageConfiguration {
    ImageConfiguration {
        config: Some(Config {
            labels: Some(
                labels
                    .iter()
                    .map(|&(k, v)| Label {
                        key: k.to_string(),
                        value: v.to_string(),
                    })
                    .collect(),
            ),
        }),
    }
}

#[test]
fn version_prefers_the_oci_label() {
    assert_eq!(ANNOTATION_VERSION, "org.opencontainers.image.version");
    assert_eq!(LABEL_VERSION, "version");
    let c = config(&[
        ("version", "38"),
        ("maintainer", "someone"),
        ("org.opencontainers.image.version", "38.20230514.1.0"),
    ]);
    assert_eq!(version_for_config(&c), Some("38.20230514.1.0"));
    let c = config(&[("maintainer", "someone"), ("version", "38")]);
    assert_eq!(version_for_config(&c), Some("38"));
    let c = config(&[("maintainer", "someone")]);
    assert_eq!(version_for_config(&c), None);
}

#[test]
fn no_labels_no_version() {
    let none = ImageConfiguration { config: None };
    assert_eq!(version_for_config(&none), None);
    assert!(labels_of(&none).is_none());
    let bare = ImageConfiguration {
        config: Some(Config { labels: None }),
    };
    assert_eq!(version_for_config(&bare), None);
    assert!(labels_of(&bare).is_none());
    let empty = config(&[]);
    assert_eq!(labels_of(&empty).map(|l| l.len()), Some(0));
    assert_eq!(version_for_config(&empty), None);
}
