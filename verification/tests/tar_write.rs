use ostree_ext::failure::{ErrorKind, Failure};
use ostree_ext::tar::path::{normalize_validate_path, NormalizedPathResult};
use ostree_ext::tar::tally::FilterTally;
use ostree_ext::tar::write::{
    commit_exit, commit_writer_args, conclude_commit, ChildOutput, WriteTarOptions,
    COMMIT_PROGRAM, COMMIT_STORE_FD,
};

#[test]
fn test_normalize_path() {
    let valid = &[
        ("/usr/bin/blah", "./usr/bin/blah"),
        ("usr/bin/blah", "./usr/bin/blah"),
        ("usr///share/.//blah", "./usr/share/blah"),
        ("./", "."),
    ];
    for &(k, v) in valid {
        let r = normalize_validate_path(k).unwrap();
        match r {
            NormalizedPathResult::Filtered(o) => {
                panic!("Case {} should not be filtered as {}", k, o)
            }
            NormalizedPathResult::Normal(p) => {
                assert_eq!(v, p.as_str());
            }
        }
    }
    let filtered = &[
        ("/boot/vmlinuz", "boot"),
        ("var/lib/blah", "var"),
        ("./var/lib/blah", "var"),
    ];
    for &(k, v) in filtered {
        match normalize_validate_path(k).unwrap() {
            NormalizedPathResult::Filtered(f) => {
                assert_eq!(v, f);
            }
            NormalizedPathResult::Normal(_) => {
                panic!("{} should be filtered", k)
            }
        }
    }
    let errs = &["usr/foo/../../bar"];
    for &k in errs {
        assert!(normalize_validate_path(k).is_err());
    }
}

#[test]
fn normalize_moves_etc_below_usr() {
    assert_eq!(
        normalize_validate_path("/etc/foo").unwrap(),
        NormalizedPathResult::Normal("./usr/etc/foo".to_string())
    );
    assert_eq!(
        normalize_validate_path("etc/foo").unwrap(),
        NormalizedPathResult::Normal("./usr/etc/foo".to_string())
    );
}

#[test]
fn normalize_refuses_parent_dir_anywhere() {
    let e = normalize_validate_path("var/../usr/bin").unwrap_err();
    assert_eq!(e.kind(), ErrorKind::Validation);
    assert_eq!(e.path, "var/../usr/bin");
    assert_eq!(e.message(), "Invalid path: var/../usr/bin");
    assert!(normalize_validate_path("../usr").is_err());
    assert!(normalize_validate_path("usr/..").is_err());
}

#[test]
fn normalize_keeps_bare_usr() {
    assert_eq!(
        normalize_validate_path("usr").unwrap(),
        NormalizedPathResult::Normal("./usr".to_string())
    );
    assert_eq!(
        normalize_validate_path("").unwrap(),
        NormalizedPathResult::Normal("".to_string())
    );
}

#[test]
fn commit_writer_command_line() {
    assert_eq!(COMMIT_PROGRAM, "ostree");
    assert_eq!(COMMIT_STORE_FD, 3);
    assert_eq!(
        commit_writer_args("exampleos/x86_64/stable", None, "0.10.5"),
        vec![
            "commit",
            "--repo=/proc/self/fd/3",
            "--add-metadata-string=ostree.importer.version=0.10.5",
            "--no-bindings",
            "--tar-autocreate-parents",
            "--tree=tar=/proc/self/fd/0",
            "--branch",
            "exampleos/x86_64/stable",
        ]
    );
    assert_eq!(
        commit_writer_args("r", Some("/tmp/policy"), "1"),
        vec![
            "commit",
            "--repo=/proc/self/fd/3",
            "--selinux-policy",
            "/tmp/policy",
            "--add-metadata-string=ostree.importer.version=1",
            "--no-bindings",
            "--tar-autocreate-parents",
            "--tree=tar=/proc/self/fd/0",
            "--branch",
            "r",
        ]
    );
}

#[test]
fn sepolicy_needs_selinux_and_a_base() {
    let mut o = WriteTarOptions::default();
    assert_eq!(o.base, None);
    assert!(!o.selinux);
    assert_eq!(o.sepolicy_base(), None);
    o.selinux = true;
    assert_eq!(o.sepolicy_base(), None);
    o.base = Some("abc".to_string());
    assert_eq!(o.sepolicy_base(), Some(&"abc".to_string()));
    o.selinux = false;
    assert_eq!(o.sepolicy_base(), None);
}

#[test]
fn commit_outcomes() {
    let out = |stdout: &str, stderr: &str| ChildOutput {
        stdout: stdout.to_string(),
        stderr: stderr.to_string(),
    };
    let mut tally = FilterTally::new();
    tally.record("var");

    let done = conclude_commit(Ok(tally.clone()), Ok(out("  0123abcd\n", "noise"))).unwrap();
    assert_eq!(done.commit, "0123abcd");
    assert_eq!(done.filtered, tally);

    let e = conclude_commit(Ok(tally.clone()), Err(Failure::new(ErrorKind::Io, "read failed"))).unwrap_err();
    assert_eq!(e.kind, ErrorKind::Io);
    assert_eq!(e.root, "read failed");
    assert_eq!(e.contexts, vec!["Copying child output"]);

    assert_eq!(commit_exit(true, "exit status: 0"), Ok(()));
    let failed = commit_exit(false, "ExitStatus(unix_wait_status(256))").unwrap_err();
    assert_eq!(
        failed.root,
        "Failed to commit tar: ExitStatus(unix_wait_status(256))"
    );
    assert_eq!(failed.kind, ErrorKind::ChildProcess);
    assert!(failed.contexts.is_empty());

    let e = conclude_commit(Err(failed.clone()), Ok(out("", "error: No such ref\n\n"))).unwrap_err();
    assert_eq!(e.kind, ErrorKind::ChildProcess);
    assert_eq!(e.root, failed.root);
    assert_eq!(
        e.contexts,
        vec!["Processing tar via ostree", "error: No such ref"]
    );

    let e = conclude_commit(Err(failed.clone()), Err(Failure::new(ErrorKind::Io, "read failed"))).unwrap_err();
    assert_eq!(e.contexts, vec!["Processing tar via ostree"]);
}
