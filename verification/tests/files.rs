use dockui::files::{child_path, mock_listing, parent_path, parse_tar_listing};

fn build_tar(entries: &[(&str, bool, &str)]) -> Vec<u8> {
    let mut b = tar::Builder::new(Vec::new());
    for (path, dir, data) in entries {
        let mut h = tar::Header::new_gnu();
        if *dir {
            h.set_entry_type(tar::EntryType::Directory);
            h.set_size(0);
            h.set_mode(0o755);
            h.set_cksum();
            b.append_data(&mut h, path, std::io::empty()).unwrap();
        } else {
            h.set_size(data.len() as u64);
            h.set_mode(0o644);
            h.set_cksum();
            b.append_data(&mut h, path, data.as_bytes()).unwrap();
        }
    }
    b.into_inner().unwrap()
}

#[test]
fn parent_paths() {
    assert_eq!(parent_path("/"), "/");
    assert_eq!(parent_path("/etc"), "/");
    assert_eq!(parent_path("/etc/ssl"), "/etc");
    assert_eq!(parent_path("/var/log/nginx/"), "/var/log");
}

#[test]
fn parses_docker_subdir_archive() {
    let t = build_tar(&[
        ("etc/", true, ""),
        ("etc/hostname", false, "abc123\n"),
        ("etc/ssl", true, ""),
    ]);
    let out = parse_tar_listing(&t).unwrap();
    assert_eq!(out.len(), 2);
    assert!(out[0].dir, "dirs first");
    assert_eq!(out[0].name, "ssl");
    assert_eq!(out[1].name, "hostname");
    assert_eq!(out[1].size, 7);
}

#[test]
fn parses_root_archive_without_shared_prefix() {
    let t = build_tar(&[
        ("bin/", true, ""),
        ("bin/dd", false, "x"),
        ("etc/", true, ""),
        ("etc/hostname", false, "abc\n"),
        ("dockerenv", false, ""),
    ]);
    let out = parse_tar_listing(&t).unwrap();
    let names: Vec<&str> = out.iter().map(|e| e.name.as_str()).collect();
    assert!(names.contains(&"bin") && names.contains(&"etc") && names.contains(&"dockerenv"));
    assert!(out.iter().find(|e| e.name == "bin").unwrap().dir);
    assert_eq!(out.iter().find(|e| e.name == "dockerenv").unwrap().size, 0);
    assert_eq!(out.len(), 3);
}

#[test]
fn empty_tar_is_empty_listing() {
    assert!(parse_tar_listing(&[]).unwrap().is_empty());
}

#[test]
fn garbage_is_not_a_listing() {
    let junk = vec![0x41u8; 700];
    assert!(parse_tar_listing(&junk).is_err());
}

#[test]
fn child_paths_join_under_the_directory() {
    assert_eq!(child_path("/", "etc"), "/etc");
    assert_eq!(child_path("/etc", "ssl"), "/etc/ssl");
}

#[test]
fn child_then_parent_returns_to_the_directory() {
    for (dir, name) in [("/", "etc"), ("/etc", "ssl"), ("/var/log", "nginx")] {
        assert_eq!(parent_path(&child_path(dir, name)), dir);
    }
}

#[test]
fn mock_listing_has_the_demo_tree() {
    let root = mock_listing("/");
    assert!(root.iter().any(|e| e.name == "etc" && e.dir));
    let etc = mock_listing("/etc");
    let hostname = etc.iter().find(|e| e.name == "hostname").unwrap();
    assert!(!hostname.dir);
    assert_eq!(hostname.size, 13);
    assert!(mock_listing("/nowhere").is_empty());
}

#[test]
fn listing_orders_names_ignoring_case() {
    let t = build_tar(&[
        ("etc/", true, ""),
        ("etc/Zeta", false, "z"),
        ("etc/alpha", false, "a"),
        ("etc/Beta", false, "b"),
        ("etc/Conf", true, ""),
        ("etc/app", true, ""),
    ]);
    let out = parse_tar_listing(&t).unwrap();
    let names: Vec<&str> = out.iter().map(|e| e.name.as_str()).collect();
    assert_eq!(names, vec!["app", "Conf", "alpha", "Beta", "Zeta"]);
}
