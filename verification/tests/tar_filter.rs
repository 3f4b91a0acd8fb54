use ostree_ext::failure::ErrorKind;
use ostree_ext::tar::filter::{
    copy_entry, EntryKind, EntryMeta, FilterAction, FilterError, TarFilter,
};
use ostree_ext::tar::tally::FilterTally;

const REPO_PREFIX: &str = "sysroot/ostree/repo/";

fn entry(path: &str, kind: EntryKind, mtime: u64, link_target: Option<&str>) -> EntryMeta {
    EntryMeta {
        path: path.to_string(),
        kind,
        mtime,
        link_target: link_target.map(|t| t.to_string()),
    }
}

fn append(dest: &mut tar::Builder<Vec<u8>>, path: &str, kind: tar::EntryType, data: &[u8]) {
    let mut header = tar::Header::new_gnu();
    header.set_entry_type(kind);
    header.set_mode(if kind == tar::EntryType::Directory {
        0o755
    } else {
        0o644
    });
    header.set_mtime(1_600_000_000);
    header.set_size(data.len() as u64);
    dest.append_data(&mut header, path, data).unwrap();
}

fn meta_of(entry: &tar::Entry<&[u8]>) -> EntryMeta {
    let header = entry.header();
    EntryMeta {
        path: entry.path().unwrap().to_str().unwrap().to_string(),
        kind: match header.entry_type() {
            tar::EntryType::Regular => EntryKind::Regular,
            tar::EntryType::Link => EntryKind::Link,
            tar::EntryType::Symlink => EntryKind::Symlink,
            _ => EntryKind::Other,
        },
        mtime: header.mtime().unwrap_or_default(),
        link_target: entry
            .link_name()
            .unwrap()
            .map(|t| t.to_str().unwrap().to_string()),
    }
}

fn paths_in(archive: &[u8]) -> Vec<String> {
    tar::Archive::new(archive)
        .entries()
        .unwrap()
        .map(|e| e.unwrap().path().unwrap().to_str().unwrap().to_string())
        .collect()
}

#[test]
fn tar_filter() {
    let mut rootfs_tar = tar::Builder::new(Vec::new());
    append(&mut rootfs_tar, "./etc", tar::EntryType::Directory, b"");
    append(&mut rootfs_tar, "./etc/systemd", tar::EntryType::Directory, b"");
    append(&mut rootfs_tar, "./etc/systemd/system", tar::EntryType::Directory, b"");
    append(
        &mut rootfs_tar,
        "./etc/systemd/system/foo.service",
        tar::EntryType::Regular,
        b"fooservice",
    );
    append(&mut rootfs_tar, "./blah", tar::EntryType::Regular, b"blah");
    let rootfs_tar = rootfs_tar.into_inner().unwrap();

    let mut filter = TarFilter::new(REPO_PREFIX);
    let mut dest = tar::Builder::new(Vec::new());
    let mut src = tar::Archive::new(rootfs_tar.as_slice());
    for entry in src.entries().unwrap() {
        let entry = entry.unwrap();
        let meta = meta_of(&entry);
        assert!(filter.can_step());
        match filter.step(&meta).unwrap() {
            FilterAction::Copy { path } => {
                let mut header = entry.header().clone();
                dest.append_data(&mut header, path, entry).unwrap();
            }
            FilterAction::Drop => {}
            other => panic!("unexpected action {:?}", other),
        }
    }
    let dest = dest.into_inner().unwrap();
    let tally = filter.finish();

    let written = paths_in(&dest);
    assert!(written.contains(&"usr/etc/systemd/system/foo.service".to_string()));
    assert!(!written.iter().any(|p| p.contains("blah")));
    assert_eq!(tally.get("blah"), Some(1));
    assert_eq!(tally.len(), 1);
}

#[test]
fn filter_moves_etc_and_drops_the_rest() {
    let mut filter = TarFilter::new(REPO_PREFIX);
    let entries = [
        entry("./etc/systemd/system", EntryKind::Other, 1, None),
        entry("./etc/systemd/system/foo.service", EntryKind::Regular, 1, None),
        entry("./blah", EntryKind::Regular, 1, None),
    ];
    let mut written = Vec::new();
    for e in &entries {
        assert!(filter.can_step());
        match filter.step(e).unwrap() {
            FilterAction::Copy { path } => written.push(path),
            FilterAction::Drop => {}
            other => panic!("unexpected action {:?}", other),
        }
    }
    assert!(written.contains(&"./usr/etc/systemd/system/foo.service".to_string()));
    assert!(!written.iter().any(|p| p.contains("blah")));
    let tally = filter.finish();
    assert_eq!(tally.get("blah"), Some(1));
    assert_eq!(tally.len(), 1);
}

#[test]
fn first_hardlink_carries_the_object_and_later_ones_point_at_it() {
    let object = format!("{}objects/ab/cdef.file", REPO_PREFIX);
    let mut filter = TarFilter::new(REPO_PREFIX);
    assert_eq!(
        filter.step(&entry(&object, EntryKind::Regular, 5, None)),
        Ok(FilterAction::Spill)
    );
    assert_eq!(
        filter.step(&entry("usr/bin/one", EntryKind::Link, 5, Some(&object))),
        Ok(FilterAction::EmitSpilled {
            source: object.clone()
        })
    );
    assert_eq!(
        filter.step(&entry("usr/bin/two", EntryKind::Link, 5, Some(&object))),
        Ok(FilterAction::Relink {
            target: "usr/bin/one".to_string()
        })
    );
    // The same object in another spelling of its path.
    let respelled = object.replace("objects/", "objects//");
    assert_eq!(
        filter.step(&entry("usr/bin/three", EntryKind::Link, 5, Some(&respelled))),
        Ok(FilterAction::Relink {
            target: "usr/bin/one".to_string()
        })
    );
    assert_eq!(filter.finish().len(), 0);
}

#[test]
fn object_store_entries_are_never_written_as_they_come() {
    let object = format!("{}objects/00/11.file", REPO_PREFIX);
    let mut filter = TarFilter::new(REPO_PREFIX);
    // Not modified: dropped.
    assert_eq!(
        filter.step(&entry(&object, EntryKind::Regular, 0, None)),
        Ok(FilterAction::Drop)
    );
    // Modified, but no regular file: dropped.
    assert_eq!(
        filter.step(&entry(&object, EntryKind::Other, 9, None)),
        Ok(FilterAction::Drop)
    );
    // A modified link to an object that was not kept aside: dropped.
    assert_eq!(
        filter.step(&entry("usr/bin/x", EntryKind::Link, 9, Some(&object))),
        Ok(FilterAction::Drop)
    );
    // A path that only starts like the prefix is an ordinary path.
    assert_eq!(
        filter.step(&entry("sysroot/ostree/repository", EntryKind::Regular, 9, None)),
        Ok(FilterAction::Drop)
    );
    let tally = filter.finish();
    assert_eq!(tally.get("sysroot"), Some(1));
    assert_eq!(tally.len(), 1);
}

#[test]
fn unmodified_links_into_the_object_store_are_ordinary_entries() {
    let object = format!("{}objects/ab/cdef.file", REPO_PREFIX);
    let mut filter = TarFilter::new(REPO_PREFIX);
    assert_eq!(
        filter.step(&entry("usr/bin/one", EntryKind::Link, 0, Some(&object))),
        Ok(FilterAction::CopyLink {
            path: "./usr/bin/one".to_string(),
            target: object.clone()
        })
    );
    assert_eq!(
        filter.step(&entry("usr/bin/two", EntryKind::Link, 3, Some("usr/bin/one"))),
        Ok(FilterAction::CopyLink {
            path: "./usr/bin/two".to_string(),
            target: "usr/bin/one".to_string()
        })
    );
    assert_eq!(
        filter.step(&entry("etc/alt", EntryKind::Symlink, 3, Some("../usr/bin/one"))),
        Ok(FilterAction::CopyLink {
            path: "./usr/etc/alt".to_string(),
            target: "../usr/bin/one".to_string()
        })
    );
}

#[test]
fn filter_errors() {
    let mut filter = TarFilter::new(REPO_PREFIX);
    assert_eq!(
        filter.step(&entry("usr/bin/x", EntryKind::Link, 1, None)),
        Err(FilterError::EmptyHardlink)
    );
    assert_eq!(
        filter.step(&entry("usr/bin/x", EntryKind::Link, 0, None)),
        Err(FilterError::InvalidLink)
    );
    assert_eq!(
        filter.step(&entry("usr/bin/y", EntryKind::Symlink, 1, None)),
        Err(FilterError::InvalidLink)
    );
    assert_eq!(
        filter.step(&entry("usr/../etc/passwd", EntryKind::Regular, 1, None)),
        Err(FilterError::InvalidPath("usr/../etc/passwd".to_string()))
    );
    assert_eq!(
        FilterError::InvalidPath("a/..".to_string()).message(),
        "Invalid path: a/.."
    );
    assert_eq!(FilterError::EmptyHardlink.message(), "Invalid empty hardlink");
    assert_eq!(FilterError::EmptyHardlink.kind(), ErrorKind::Parse);
    assert_eq!(FilterError::InvalidLink.kind(), ErrorKind::Parse);
    assert_eq!(
        FilterError::InvalidPath("a/..".to_string()).kind(),
        ErrorKind::Validation
    );
    assert_eq!(FilterError::InvalidLink.message(), "Invalid link");
}

#[test]
fn an_object_kept_aside_twice_is_written_once() {
    let object = format!("{}objects/ab/cdef.file", REPO_PREFIX);
    let mut filter = TarFilter::new(REPO_PREFIX);
    assert_eq!(
        filter.step(&entry(&object, EntryKind::Regular, 5, None)),
        Ok(FilterAction::Spill)
    );
    assert_eq!(
        filter.step(&entry(&object, EntryKind::Regular, 6, None)),
        Ok(FilterAction::Spill)
    );
    assert_eq!(
        filter.step(&entry("usr/a", EntryKind::Link, 5, Some(&object))),
        Ok(FilterAction::EmitSpilled {
            source: object.clone()
        })
    );
    assert_eq!(
        filter.step(&entry("usr/b", EntryKind::Link, 5, Some(&object))),
        Ok(FilterAction::Relink {
            target: "usr/a".to_string()
        })
    );
    // Kept aside again, the object moves to the next link that names it.
    assert_eq!(
        filter.step(&entry(&object, EntryKind::Regular, 7, None)),
        Ok(FilterAction::Spill)
    );
    assert_eq!(
        filter.step(&entry("usr/c", EntryKind::Link, 5, Some(&object))),
        Ok(FilterAction::EmitSpilled {
            source: object.clone()
        })
    );
    assert_eq!(
        filter.step(&entry("usr/d", EntryKind::Link, 5, Some(&object))),
        Ok(FilterAction::Relink {
            target: "usr/c".to_string()
        })
    );
}

#[test]
fn copy_entry_keeps_the_path_unless_told() {
    let e = entry("usr/bin/x", EntryKind::Regular, 1, None);
    assert_eq!(
        copy_entry(&e, None),
        Ok(FilterAction::Copy {
            path: "usr/bin/x".to_string()
        })
    );
    assert_eq!(
        copy_entry(&e, Some("./usr/bin/x")),
        Ok(FilterAction::Copy {
            path: "./usr/bin/x".to_string()
        })
    );
    let l = entry("usr/bin/l", EntryKind::Symlink, 1, Some("x"));
    assert_eq!(
        copy_entry(&l, None),
        Ok(FilterAction::CopyLink {
            path: "usr/bin/l".to_string(),
            target: "x".to_string()
        })
    );
}

#[test]
fn tally_counts_by_name_in_ascending_order() {
    let mut tally = FilterTally::new();
    for p in ["var", "boot", "var", "opt", "boot", "var"] {
        assert!(tally.has_room(p));
        tally.record(p);
    }
    assert_eq!(tally.len(), 3);
    assert_eq!(tally.get("var"), Some(3));
    assert_eq!(tally.get("boot"), Some(2));
    assert_eq!(tally.get("opt"), Some(1));
    assert_eq!(tally.get("usr"), None);
    let names: Vec<&str> = (0..tally.len()).map(|i| tally.row(i).prefix.as_str()).collect();
    assert_eq!(names, vec!["boot", "opt", "var"]);
    assert!(tally.all_below_max());
}

#[test]
fn tally_through_the_filter() {
    let mut filter = TarFilter::new(REPO_PREFIX);
    for p in ["/boot/vmlinuz", "var/lib/x", "./var/lib/y", "opt", "usr/ok"] {
        assert!(filter.can_step());
        filter.step(&entry(p, EntryKind::Regular, 1, None)).unwrap();
    }
    let tally = filter.tally();
    assert_eq!(tally.get("var"), Some(2));
    assert_eq!(tally.get("boot"), Some(1));
    assert_eq!(tally.get("opt"), Some(1));
    assert_eq!(tally.get("usr"), None);
}
