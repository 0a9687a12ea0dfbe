use herdr_docs::layout::{area_fits, centered_rect};
use herdr_docs::reader::Area;
use herdr_docs::paths::{display_path, resolve_path, shorten_name};

#[test]
fn path_resolution_supports_home_and_relative_paths() {
    assert_eq!(resolve_path("docs/a.md", "/tmp/project", Some("/home/reader")), "/tmp/project/docs/a.md");
    let home = "/home/reader";
    assert_eq!(resolve_path("~/notes.md", "/tmp", Some(home)), "/home/reader/notes.md");
}

#[test]
fn resolve_path_handles_home_absolute_and_missing_home() {
    assert_eq!(resolve_path("~", "/tmp", Some("/home/reader")), "/home/reader");
    assert_eq!(resolve_path("~", "/tmp", None), "~");
    assert_eq!(resolve_path("~/notes.md", "/tmp", None), "/tmp/~/notes.md");
    assert_eq!(resolve_path("/etc/hosts", "/tmp", Some("/home/reader")), "/etc/hosts");
}

#[test]
fn display_path_is_relative_to_root_then_home() {
    assert_eq!(display_path("/work/docs/a.md", "/work", Some("/home/u")), "./docs/a.md");
    assert_eq!(display_path("/work", "/work", Some("/home/u")), ".");
    assert_eq!(display_path("/home/u/notes.md", "/work", Some("/home/u")), "~/notes.md");
    assert_eq!(display_path("/etc/hosts", "/work", Some("/home/u")), "/etc/hosts");
    assert_eq!(display_path("/etc/hosts", "/work", None), "/etc/hosts");
}

#[test]
fn shorten_name_is_the_last_component() {
    assert_eq!(shorten_name("/work/docs"), "docs");
    assert_eq!(shorten_name("/"), "/");
}

#[test]
fn centered_rect_is_in_the_middle() {
    let r = centered_rect(50, 50, Area { x: 0, y: 0, width: 100, height: 40 });
    assert_eq!(r, Area { x: 25, y: 10, width: 50, height: 20 });
}

#[test]
fn a_path_shown_below_home_resolves_back() {
    let shown = display_path("/home/u/notes/a.md", "/work", Some("/home/u"));
    assert_eq!(shown, "~/notes/a.md");
    assert_eq!(resolve_path(&shown, "/work", Some("/home/u")), "/home/u/notes/a.md");
}

#[test]
fn entry_names_are_last_components() {
    assert_eq!(herdr_docs::paths::entry_name("/work/docs/a.md"), "a.md");
    assert_eq!(herdr_docs::paths::entry_name("/"), "?");
}

#[test]
fn centered_rect_rounds_each_edge() {
    let r = centered_rect(72, 66, Area { x: 0, y: 0, width: 100, height: 40 });
    assert_eq!(r, Area { x: 14, y: 7, width: 72, height: 26 });
    let r = centered_rect(50, 50, Area { x: 3, y: 2, width: 7, height: 5 });
    assert_eq!(r, Area { x: 5, y: 3, width: 3, height: 3 });
    let r = centered_rect(99, 99, Area { x: 0, y: 0, width: 2, height: 2 });
    assert_eq!(r, Area { x: 0, y: 0, width: 2, height: 2 });
}

#[test]
fn areas_must_fit_the_plane() {
    assert!(area_fits(Area { x: 0, y: 0, width: 65535, height: 65535 }));
    assert!(!area_fits(Area { x: 65535, y: 0, width: 1, height: 1 }));
    assert!(!area_fits(Area { x: 0, y: 10, width: 1, height: 65530 }));
}
