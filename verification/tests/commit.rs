use ostree_ext::commit::{
    prepare_ostree_commit_in, prepare_ostree_commit_in_nonstrict, CommitError, DirEntry, Node,
    Removal, RootDir, REPORT_LIMIT,
};

const ROOTDEV: u64 = 7;

fn dir(name: &str, entries: Vec<DirEntry>) -> DirEntry {
    DirEntry {
        name: name.to_string(),
        dev: ROOTDEV,
        mount_point: false,
        node: Node::Dir(entries),
    }
}

fn file(name: &str) -> DirEntry {
    DirEntry {
        name: name.to_string(),
        dev: ROOTDEV,
        mount_point: false,
        node: Node::File,
    }
}

fn find<'a>(entries: &'a [DirEntry], path: &str) -> Option<&'a DirEntry> {
    let (first, rest) = match path.split_once('/') {
        Some((first, rest)) => (first, Some(rest)),
        None => (path, None),
    };
    let entry = entries.iter().find(|e| e.name == first)?;
    match (rest, &entry.node) {
        (None, _) => Some(entry),
        (Some(rest), Node::Dir(below)) => find(below, rest),
        (Some(_), Node::File) => None,
    }
}

fn try_exists(root: &RootDir, path: &str) -> bool {
    find(&root.entries, path).is_some()
}

fn entries_at<'a>(entries: &'a mut Vec<DirEntry>, path: &str) -> &'a mut Vec<DirEntry> {
    let (first, rest) = match path.split_once('/') {
        Some((first, rest)) => (first, Some(rest)),
        None => (path, None),
    };
    if !entries.iter().any(|e| e.name == first) {
        entries.push(dir(first, Vec::new()));
    }
    let entry = entries.iter_mut().find(|e| e.name == first).unwrap();
    let below = match &mut entry.node {
        Node::Dir(below) => below,
        Node::File => panic!("{} is a file", first),
    };
    match rest {
        Some(rest) => entries_at(below, rest),
        None => below,
    }
}

fn create_dir_all(root: &mut RootDir, path: &str) {
    entries_at(&mut root.entries, path);
}

fn write(root: &mut RootDir, path: &str) {
    let (parent, name) = match path.rsplit_once('/') {
        Some((parent, name)) => (Some(parent), name),
        None => (None, path),
    };
    let entries = match parent {
        Some(parent) => entries_at(&mut root.entries, parent),
        None => &mut root.entries,
    };
    if !entries.iter().any(|e| e.name == name) {
        entries.push(file(name));
    }
}

fn remove_dir_all(root: &mut RootDir, name: &str) {
    root.entries.retain(|e| e.name != name);
}

fn removal(path: &str, dir: bool) -> Removal {
    Removal {
        path: path.to_string(),
        dir,
    }
}

#[test]
fn commit() {
    let td = &mut RootDir {
        dev: ROOTDEV,
        entries: Vec::new(),
    };

    // Handle the empty case
    prepare_ostree_commit_in(td).unwrap();
    prepare_ostree_commit_in_nonstrict(td).unwrap();

    let var = "var";
    let run = "run";
    let tmp = "tmp";
    let vartmp_foobar = "var/tmp/foo/bar";
    let runsystemd = "run/systemd";
    let resolvstub = "run/systemd/resolv.conf";

    for p in [var, run, tmp] {
        create_dir_all(td, p);
    }

    create_dir_all(td, vartmp_foobar);
    write(td, "var/tmp/foo/bar/a");
    write(td, "var/tmp/foo/bar/b");
    create_dir_all(td, runsystemd);
    write(td, resolvstub);
    prepare_ostree_commit_in(td).unwrap();
    assert!(try_exists(td, var));
    assert!(try_exists(td, "var/tmp"));
    assert!(!try_exists(td, vartmp_foobar));
    assert!(try_exists(td, run));
    assert!(!try_exists(td, runsystemd));

    let systemd = "run/systemd";
    create_dir_all(td, systemd);
    prepare_ostree_commit_in(td).unwrap();
    assert!(try_exists(td, var));
    assert!(!try_exists(td, systemd));

    remove_dir_all(td, var);
    create_dir_all(td, var);
    write(td, "var/foo");
    assert!(prepare_ostree_commit_in(td).is_err());
    // Right now we don't auto-create var/tmp if it didn't exist, but maybe
    // we will in the future.
    assert!(!try_exists(td, "var/tmp"));
    assert!(try_exists(td, var));

    write(td, "var/foo");
    prepare_ostree_commit_in_nonstrict(td).unwrap();
    assert!(try_exists(td, var));

    let nested = "var/lib/nested";
    create_dir_all(td, nested);
    write(td, "var/lib/nested/foo");
    write(td, "var/lib/nested/foo2");
    assert!(prepare_ostree_commit_in(td).is_err());
    assert!(try_exists(td, var));
}

#[test]
fn sweep_lists_removals_in_order() {
    let mut root = RootDir {
        dev: ROOTDEV,
        entries: vec![
            dir(
                "run",
                vec![dir("systemd", vec![file("resolv.conf")]), file("lock")],
            ),
            dir("tmp", vec![]),
            dir(
                "var",
                vec![
                    dir("tmp", vec![dir("foo", vec![dir("bar", vec![file("a"), file("b")])])]),
                    dir("cache", vec![file("x")]),
                    dir("lib", vec![dir("empty", vec![])]),
                ],
            ),
            dir("usr", vec![file("keep")]),
        ],
    };
    let sweep = root.sweep();
    assert!(sweep.validated);
    assert!(sweep.found.is_empty());
    assert_eq!(sweep.verdict(true), Ok(()));
    assert_eq!(
        sweep.removals,
        vec![
            removal("run/systemd/resolv.conf", false),
            removal("run/systemd", true),
            removal("run/lock", false),
            removal("var/tmp/foo/bar/a", false),
            removal("var/tmp/foo/bar/b", false),
            removal("var/tmp/foo/bar", true),
            removal("var/tmp/foo", true),
            removal("var/cache/x", false),
            removal("var/cache", true),
            removal("var/lib/empty", true),
            removal("var/lib", true),
        ]
    );
    assert_eq!(
        root,
        RootDir {
            dev: ROOTDEV,
            entries: vec![
                dir("run", vec![]),
                dir("tmp", vec![]),
                dir("var", vec![dir("tmp", vec![])]),
                dir("usr", vec![file("keep")]),
            ],
        }
    );
}

#[test]
fn files_in_var_stay_and_are_reported() {
    let mut root = RootDir {
        dev: ROOTDEV,
        entries: vec![dir(
            "var",
            vec![file("foo"), dir("lib", vec![dir("nested", vec![file("foo"), file("foo2")])])],
        )],
    };
    let sweep = root.sweep();
    assert!(!sweep.validated);
    assert_eq!(sweep.found, vec!["var/foo", "var/lib/nested/foo", "var/lib/nested/foo2"]);
    assert!(sweep.removals.is_empty());
    assert_eq!(sweep.verdict(true), Err(CommitError::ContentInVar));
    assert_eq!(sweep.verdict(false), Ok(()));
    assert_eq!(CommitError::ContentInVar.message(), "Found content in var");
    assert_eq!(
        CommitError::ContentInVar.kind(),
        ostree_ext::failure::ErrorKind::Validation
    );
    assert!(try_exists(&root, "var/foo"));
    assert!(try_exists(&root, "var/lib/nested/foo2"));
}

#[test]
fn other_devices_and_mount_points_are_left_alone() {
    let foreign = DirEntry {
        name: ".containerenv".to_string(),
        dev: ROOTDEV + 1,
        mount_point: false,
        node: Node::File,
    };
    let mounted = DirEntry {
        name: "secrets".to_string(),
        dev: ROOTDEV,
        mount_point: true,
        node: Node::Dir(vec![file("token")]),
    };
    let deep = DirEntry {
        name: "deep".to_string(),
        dev: ROOTDEV + 1,
        mount_point: false,
        node: Node::Dir(vec![]),
    };
    let bound = DirEntry {
        name: "bound".to_string(),
        dev: ROOTDEV,
        mount_point: true,
        node: Node::Dir(vec![file("inside")]),
    };
    let mut root = RootDir {
        dev: ROOTDEV,
        entries: vec![
            dir(
                "run",
                vec![
                    foreign,
                    mounted,
                    dir("a", vec![file("gone"), dir("b", vec![deep])]),
                    dir("c", vec![dir("d", vec![bound, file("gone too")])]),
                ],
            ),
            DirEntry {
                name: "tmp".to_string(),
                dev: ROOTDEV + 2,
                mount_point: false,
                node: Node::Dir(vec![file("kept")]),
            },
            dir(
                "var",
                vec![dir(
                    "mnt",
                    vec![DirEntry {
                        name: "disk".to_string(),
                        dev: ROOTDEV + 3,
                        mount_point: false,
                        node: Node::Dir(vec![file("data")]),
                    }],
                )],
            ),
        ],
    };
    let sweep = root.sweep();
    assert!(sweep.validated);
    assert_eq!(
        sweep.removals,
        vec![removal("run/a/gone", false), removal("run/c/d/gone too", false)]
    );
    assert!(try_exists(&root, "run/c/d/bound/inside"));
    assert!(try_exists(&root, "run/.containerenv"));
    assert!(try_exists(&root, "run/secrets/token"));
    assert!(try_exists(&root, "run/a/b/deep"));
    assert!(!try_exists(&root, "run/a/gone"));
    assert!(try_exists(&root, "tmp/kept"));
    assert!(try_exists(&root, "var/mnt/disk/data"));
}

#[test]
fn reports_stop_at_the_limit() {
    let files: Vec<DirEntry> = (0..REPORT_LIMIT + 5).map(|i| file(&format!("f{}", i))).collect();
    let mut root = RootDir {
        dev: ROOTDEV,
        entries: vec![dir("var", files)],
    };
    let sweep = root.sweep();
    assert!(!sweep.validated);
    assert_eq!(sweep.found.len(), REPORT_LIMIT);
    assert_eq!(sweep.found[0], "var/f0");
    assert_eq!(sweep.found[REPORT_LIMIT - 1], format!("var/f{}", REPORT_LIMIT - 1));
}

#[test]
fn force_clean_paths_that_are_files_are_left() {
    let mut root = RootDir {
        dev: ROOTDEV,
        entries: vec![file("run"), file("tmp"), file("var")],
    };
    let sweep = root.sweep();
    assert!(sweep.validated);
    assert!(sweep.removals.is_empty());
    assert!(try_exists(&root, "run"));
    assert!(try_exists(&root, "var"));
    assert_eq!(prepare_ostree_commit_in(&mut root), Ok(()));
}
