use ostree_ext::container::proxy_config::{
    default_isolation_user, merge_default_container_proxy_opts,
    merge_default_container_proxy_opts_with_isolation, wants_global_authfile, AuthData,
    ImageProxyConfig, SkopeoCommand,
};

#[test]
fn test_merge_authopts() {
    // Verify idempotence of authentication processing
    let mut c = ImageProxyConfig::default();
    c.auth_data = Some(AuthData::Stream);
    merge_default_container_proxy_opts_with_isolation(&mut c, None, None);
    assert!(!c.auth_anonymous);
    assert!(c.authfile.is_none());
    assert!(c.auth_data.is_some());
    assert!(c.skopeo_cmd.is_none());
    merge_default_container_proxy_opts_with_isolation(&mut c, None, None);
    assert!(!c.auth_anonymous);
    assert!(c.authfile.is_none());
    assert!(c.auth_data.is_some());
    assert!(c.skopeo_cmd.is_none());

    // Verify interaction with explicit isolation
    let mut c = ImageProxyConfig {
        skopeo_cmd: Some(SkopeoCommand::Configured),
        ..Default::default()
    };
    merge_default_container_proxy_opts_with_isolation(&mut c, Some("foo"), None);
    assert_eq!(c.skopeo_cmd.unwrap(), SkopeoCommand::Configured);
}

#[test]
fn merging_twice_is_merging_once() {
    let starts = [
        ImageProxyConfig::default(),
        ImageProxyConfig {
            auth_anonymous: true,
            ..Default::default()
        },
        ImageProxyConfig {
            authfile: Some("/run/auth.json".to_string()),
            ..Default::default()
        },
        ImageProxyConfig {
            auth_data: Some(AuthData::Stream),
            ..Default::default()
        },
        ImageProxyConfig {
            skopeo_cmd: Some(SkopeoCommand::Configured),
            ..Default::default()
        },
        ImageProxyConfig {
            authfile: Some("/a".to_string()),
            auth_data: Some(AuthData::Stream),
            auth_anonymous: true,
            skopeo_cmd: None,
        },
    ];
    for start in starts {
        for user in [None, Some("nobody")] {
            for global in [None, Some("/etc/ostree/auth.json")] {
                let mut once = start.clone();
                merge_default_container_proxy_opts_with_isolation(&mut once, user, global);
                let mut twice = once.clone();
                merge_default_container_proxy_opts_with_isolation(&mut twice, user, global);
                assert_eq!(once, twice);
            }
        }
    }
}

#[test]
fn defaults_for_authentication() {
    let mut c = ImageProxyConfig::default();
    assert!(wants_global_authfile(&c));
    merge_default_container_proxy_opts_with_isolation(&mut c, None, None);
    assert!(c.auth_anonymous);
    assert!(c.authfile.is_none());
    assert!(!wants_global_authfile(&c));

    let mut c = ImageProxyConfig::default();
    merge_default_container_proxy_opts_with_isolation(&mut c, None, Some("/etc/ostree/auth.json"));
    assert!(!c.auth_anonymous);
    assert_eq!(c.authfile.as_deref(), Some("/etc/ostree/auth.json"));
    assert!(c.auth_data.is_none());
    assert!(c.skopeo_cmd.is_none());

    // What the configuration says already stands.
    let mut c = ImageProxyConfig {
        authfile: Some("/mine".to_string()),
        ..Default::default()
    };
    assert!(!wants_global_authfile(&c));
    merge_default_container_proxy_opts_with_isolation(&mut c, None, Some("/etc/ostree/auth.json"));
    assert_eq!(c.authfile.as_deref(), Some("/mine"));
}

#[test]
fn isolation_moves_the_auth_file_into_a_stream() {
    let mut c = ImageProxyConfig::default();
    merge_default_container_proxy_opts_with_isolation(
        &mut c,
        Some("someone"),
        Some("/etc/ostree/auth.json"),
    );
    assert_eq!(
        c,
        ImageProxyConfig {
            authfile: None,
            auth_data: Some(AuthData::File("/etc/ostree/auth.json".to_string())),
            auth_anonymous: false,
            skopeo_cmd: Some(SkopeoCommand::Unprivileged {
                binary: "skopeo".to_string(),
                user: "someone".to_string(),
            }),
        }
    );

    let mut c = ImageProxyConfig {
        auth_data: Some(AuthData::Stream),
        ..Default::default()
    };
    merge_default_container_proxy_opts_with_isolation(&mut c, Some("someone"), None);
    assert_eq!(c.auth_data, Some(AuthData::Stream));
    assert!(!c.auth_anonymous);
    assert!(c.skopeo_cmd.is_some());
}

#[test]
fn root_is_isolated_as_nobody() {
    assert_eq!(default_isolation_user(true), Some("nobody"));
    assert_eq!(default_isolation_user(false), None);
    let mut c = ImageProxyConfig::default();
    merge_default_container_proxy_opts(&mut c, true, None);
    assert_eq!(
        c.skopeo_cmd,
        Some(SkopeoCommand::Unprivileged {
            binary: "skopeo".to_string(),
            user: "nobody".to_string(),
        })
    );
    assert!(c.auth_anonymous);
    let mut c = ImageProxyConfig::default();
    merge_default_container_proxy_opts(&mut c, false, None);
    assert!(c.skopeo_cmd.is_none());
}
