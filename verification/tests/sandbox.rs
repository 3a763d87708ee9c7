use goose_ifc::sandbox::build_profile;

#[test]
fn the_profile_lists_the_directories_in_order() {
    let extras = vec!["/srv/project".to_owned(), "/tmp/with space".to_owned()];
    assert_eq!(
        build_profile("/home/agent", &extras),
        "(version 1)\n(allow default)\n\n;; deny everywhere ...\n(deny file-write* file-link file-clone)\n\n;; ...but allow them under explicit subpaths...\n(allow file-write* file-link file-clone\n    (subpath \"/home/agent/.goose\")\n    (subpath \"/home/agent/.local/share/goose\")\n    (subpath \"/home/agent/.config/goose\")\n    (subpath \"/home/agent/.local/state/goose\")\n    (subpath \"/home/agent/.cache/uv\")\n    (subpath \"/home/agent/.cache\")\n    (subpath \"/srv/project\")\n    (subpath \"/tmp/with space\")\n\n)\n"
    );
}

#[test]
fn the_profile_without_extras_ends_with_an_empty_line() {
    let profile = build_profile("", &Vec::new());
    assert!(profile.ends_with("    (subpath \"/.cache\")\n\n)\n"));
    assert_eq!(profile.matches("subpath \"").count(), 6);
}
