use ostree_ext::container::{
    ImageReference, OstreeImageReference, ReferenceError, SignatureSource, Transport,
};
use ostree_ext::failure::ErrorKind;

const INVALID_IRS: &[&str] = &["", "foo://", "docker:blah", "registry:", "foo:bar"];
const NAMELESS_IRS: &[&str] = &["docker://", "registry:", "oci:", "oci-archive:"];
const VALID_IRS: &[&str] = &[
    "containers-storage:localhost/someimage",
    "docker://quay.io/exampleos/blah:sometag",
];

#[test]
fn test_imagereference() {
    let ir: ImageReference = ImageReference::try_from("registry:quay.io/exampleos/blah").unwrap();
    assert_eq!(ir.transport, Transport::Registry);
    assert_eq!(ir.name, "quay.io/exampleos/blah");
    assert_eq!(ir.to_string(), "docker://quay.io/exampleos/blah");

    for &v in VALID_IRS {
        ImageReference::try_from(v).unwrap();
    }

    for &v in INVALID_IRS {
        if ImageReference::try_from(v).is_ok() {
            panic!("Should fail to parse: {}", v)
        }
    }
    let ir: ImageReference = ImageReference::try_from("oci:somedir").unwrap();
    assert_eq!(ir.transport, Transport::OciDir);
    assert_eq!(ir.name, "somedir");
}

#[test]
fn test_ostreeimagereference() {
    // Test both long form `ostree-remote-image:$myremote:registry` and the
    // shorthand `ostree-remote-registry:$myremote`.
    let ir_s = "ostree-remote-image:myremote:registry:quay.io/exampleos/blah";
    let ir_registry = "ostree-remote-registry:myremote:quay.io/exampleos/blah";
    for &ir_s in &[ir_s, ir_registry] {
        let ir: OstreeImageReference = OstreeImageReference::try_from(ir_s).unwrap();
        assert_eq!(
            ir.sigverify,
            SignatureSource::OstreeRemote("myremote".to_string())
        );
        assert_eq!(ir.imgref.transport, Transport::Registry);
        assert_eq!(ir.imgref.name, "quay.io/exampleos/blah");
        assert_eq!(
            ir.to_string(),
            "ostree-remote-image:myremote:docker://quay.io/exampleos/blah"
        );
    }

    // Also verify our FromStr impls

    let ir: OstreeImageReference = OstreeImageReference::try_from(ir_s).unwrap();
    assert_eq!(ir, OstreeImageReference::from_str(ir_s).unwrap());
    // test our Eq implementation
    assert_eq!(&ir, &OstreeImageReference::try_from(ir_registry).unwrap());

    let ir_s = "ostree-image-signed:docker://quay.io/exampleos/blah";
    let ir: OstreeImageReference = OstreeImageReference::try_from(ir_s).unwrap();
    assert_eq!(ir.sigverify, SignatureSource::ContainerPolicy);
    assert_eq!(ir.imgref.transport, Transport::Registry);
    assert_eq!(ir.imgref.name, "quay.io/exampleos/blah");
    assert_eq!(
        ir.to_string(),
        "ostree-image-signed:docker://quay.io/exampleos/blah"
    );

    let ir_s = "ostree-unverified-image:docker://quay.io/exampleos/blah";
    let ir: OstreeImageReference = OstreeImageReference::try_from(ir_s).unwrap();
    assert_eq!(ir.sigverify, SignatureSource::ContainerPolicyAllowInsecure);
    assert_eq!(ir.imgref.transport, Transport::Registry);
    assert_eq!(ir.imgref.name, "quay.io/exampleos/blah");
    assert_eq!(
        ir.to_string(),
        "ostree-unverified-image:docker://quay.io/exampleos/blah"
    );
    let ir_shorthand =
        OstreeImageReference::try_from("ostree-unverified-registry:quay.io/exampleos/blah")
            .unwrap();
    assert_eq!(&ir_shorthand, &ir);
}

#[test]
fn image_reference_errors() {
    assert_eq!(
        ImageReference::try_from(""),
        Err(ReferenceError::MissingColon("".to_string()))
    );
    assert_eq!(
        ImageReference::try_from("foo://"),
        Err(ReferenceError::UnknownTransport("foo".to_string()))
    );
    assert_eq!(
        ImageReference::try_from("docker:blah"),
        Err(ReferenceError::MissingSlashes("docker:blah".to_string()))
    );
    assert_eq!(
        ImageReference::try_from("registry:"),
        Err(ReferenceError::EmptyName("registry:".to_string()))
    );
    assert_eq!(
        ImageReference::try_from("foo:bar").unwrap_err().message(),
        "Unknown transport 'foo'"
    );
    assert_eq!(
        ImageReference::try_from("foo:bar").unwrap_err().kind(),
        ErrorKind::Parse
    );
    assert_eq!(
        ImageReference::try_from("nocolon").unwrap_err().message(),
        "Missing ':' in nocolon"
    );
    assert_eq!(
        ImageReference::try_from("oci:").unwrap_err().message(),
        "Invalid empty name in oci:"
    );
    assert_eq!(
        ImageReference::try_from("docker:x").unwrap_err().message(),
        "Missing // in docker:// in docker:x"
    );
}

#[test]
fn image_reference_needs_a_name() {
    for &v in NAMELESS_IRS {
        assert_eq!(
            ImageReference::try_from(v),
            Err(ReferenceError::EmptyName(v.to_string()))
        );
    }
    assert_eq!(
        OstreeImageReference::try_from("ostree-image-signed:docker://"),
        Err(ReferenceError::EmptyName("docker://".to_string()))
    );
}

#[test]
fn ostree_image_reference_errors() {
    assert_eq!(
        OstreeImageReference::try_from("ostree-image-signed"),
        Err(ReferenceError::MissingColon("ostree-image-signed".to_string()))
    );
    assert_eq!(
        OstreeImageReference::try_from("ostree-remote-image:myremote"),
        Err(ReferenceError::MissingSecondColon(
            "ostree-remote-image:myremote".to_string()
        ))
    );
    assert_eq!(
        OstreeImageReference::try_from("ostree-remote-registry:myremote"),
        Err(ReferenceError::MissingSecondColon(
            "ostree-remote-registry:myremote".to_string()
        ))
    );
    assert_eq!(
        OstreeImageReference::try_from("bogus:docker://x"),
        Err(ReferenceError::InvalidScheme("bogus".to_string()))
    );
    assert_eq!(
        OstreeImageReference::try_from("bogus:docker://x").unwrap_err().message(),
        "Invalid ostree image reference scheme: bogus"
    );
    assert_eq!(
        OstreeImageReference::try_from("ostree-image-signed:nope:x"),
        Err(ReferenceError::UnknownTransport("nope".to_string()))
    );
    assert_eq!(
        OstreeImageReference::try_from("ostree-unverified-registry:"),
        Err(ReferenceError::EmptyName("registry:".to_string()))
    );
    assert_eq!(
        OstreeImageReference::try_from("ostree-remote-image:r:x").unwrap_err().message(),
        "Missing ':' in x"
    );
    assert_eq!(
        OstreeImageReference::try_from("ostree-remote-image:r").unwrap_err().message(),
        "Missing second ':' in ostree-remote-image:r"
    );
}

#[test]
fn signature_source_forms() {
    assert_eq!(
        SignatureSource::try_from("ostree-image-signed"),
        Ok(SignatureSource::ContainerPolicy)
    );
    assert_eq!(
        SignatureSource::from_str("ostree-unverified-image"),
        Ok(SignatureSource::ContainerPolicyAllowInsecure)
    );
    assert_eq!(
        SignatureSource::try_from("ostree-remote-image:fedora"),
        Ok(SignatureSource::OstreeRemote("fedora".to_string()))
    );
    assert_eq!(
        SignatureSource::try_from("ostree-remote-image").unwrap_err().message(),
        "Invalid signature source: ostree-remote-image"
    );
    assert_eq!(
        SignatureSource::OstreeRemote("fedora".to_string()).to_string(),
        "ostree-remote-image:fedora"
    );
    assert_eq!(SignatureSource::ContainerPolicy.to_string(), "ostree-image-signed");
    assert_eq!(
        SignatureSource::ContainerPolicyAllowInsecure.to_string(),
        "ostree-unverified-image"
    );
}

#[test]
fn transport_tags() {
    assert_eq!(Transport::try_from("registry"), Ok(Transport::Registry));
    assert_eq!(Transport::try_from("docker"), Ok(Transport::Registry));
    assert_eq!(Transport::try_from("oci"), Ok(Transport::OciDir));
    assert_eq!(Transport::try_from("oci-archive"), Ok(Transport::OciArchive));
    assert_eq!(
        Transport::try_from("containers-storage"),
        Ok(Transport::ContainerStorage)
    );
    assert_eq!(
        Transport::try_from("ftp"),
        Err(ReferenceError::UnknownTransport("ftp".to_string()))
    );
    assert_eq!(Transport::Registry.to_string(), "docker://");
    assert_eq!(Transport::OciDir.to_string(), "oci:");
    assert_eq!(Transport::OciArchive.to_string(), "oci-archive:");
    assert_eq!(Transport::ContainerStorage.to_string(), "containers-storage:");
}

#[test]
fn printed_references_parse_back() {
    let cases = [
        OstreeImageReference {
            sigverify: SignatureSource::OstreeRemote("myremote".to_string()),
            imgref: ImageReference {
                transport: Transport::Registry,
                name: "quay.io/exampleos/blah:tag".to_string(),
            },
        },
        OstreeImageReference {
            sigverify: SignatureSource::ContainerPolicy,
            imgref: ImageReference {
                transport: Transport::OciArchive,
                name: "/some/file.ociarchive".to_string(),
            },
        },
        OstreeImageReference {
            sigverify: SignatureSource::ContainerPolicyAllowInsecure,
            imgref: ImageReference {
                transport: Transport::ContainerStorage,
                name: "localhost/img".to_string(),
            },
        },
        OstreeImageReference {
            sigverify: SignatureSource::OstreeRemote("".to_string()),
            imgref: ImageReference {
                transport: Transport::OciDir,
                name: "dir:with:colons".to_string(),
            },
        },
    ];
    for x in cases {
        assert_eq!(OstreeImageReference::try_from(x.to_string().as_str()), Ok(x));
    }
}
