use herdr_docs::listing::ListedItem;
use herdr_docs::reader::{
    rect_contains, Action, Area, Focus, InputMode, Key, KeyPress, MouseAction, MouseKind, Reader,
};

fn item(path: &str, is_dir: bool, supported: bool) -> ListedItem {
    ListedItem { path: path.to_string(), is_dir, supported }
}

fn listing() -> Vec<ListedItem> {
    vec![
        item("/work/zeta.md", false, true),
        item("/work/.hidden.md", false, true),
        item("/work/docs", true, false),
        item("/work/README.md", false, true),
        item("/work/image.png", false, false),
        item("/work/alpha.txt", false, true),
        item("/work/assets", true, false),
    ]
}

fn press(key: Key) -> KeyPress {
    KeyPress { key, control: false }
}

fn reader() -> Reader {
    Reader::new("/work".to_string(), Some("/home/u".to_string()), Ok(listing()))
}

fn paths(reader: &Reader) -> Vec<String> {
    reader.entries().iter().map(|e| e.path.clone()).collect()
}

#[test]
fn browser_lists_parent_then_directories_then_files() {
    let r = reader();
    assert_eq!(
        paths(&r),
        vec!["/", "/work/assets", "/work/docs", "/work/README.md", "/work/alpha.txt", "/work/zeta.md"]
    );
    assert!(r.entry_is_parent(0));
    assert!(!r.entry_is_parent(1));
    assert_eq!(r.preferred_document(), Some("/work/README.md".to_string()));
}

#[test]
fn listing_errors_show_in_the_status() {
    let r = Reader::new("/gone".to_string(), None, Err("not found".to_string()));
    assert_eq!(r.status(), "Cannot read /gone: not found");
    assert_eq!(paths(&r), vec!["/"]);
}

#[test]
fn an_unreadable_root_lists_nothing() {
    let r = Reader::new("/".to_string(), None, Err("denied".to_string()));
    assert_eq!(r.status(), "Cannot read /: denied");
    assert!(paths(&r).is_empty());
}

#[test]
fn quit_keys() {
    let mut r = reader();
    assert!(matches!(r.handle_key(press(Key::Char('q'))), Action::Quit));
    assert!(matches!(r.handle_key(press(Key::Esc)), Action::Quit));
    assert!(matches!(r.handle_key(KeyPress { key: Key::Char('c'), control: true }), Action::Quit));
}

#[test]
fn help_swallows_keys_until_closed() {
    let mut r = reader();
    assert!(matches!(r.handle_key(press(Key::Char('?'))), Action::Stay));
    assert!(r.show_help());
    assert!(matches!(r.handle_key(press(Key::Char('o'))), Action::Stay));
    assert!(r.show_help());
    assert_eq!(r.input_mode(), None);
    r.handle_key(press(Key::Char('q')));
    assert!(!r.show_help());
}

#[test]
fn tab_and_b_toggle_the_browser() {
    let mut r = reader();
    assert!(!r.show_browser());
    r.handle_key(press(Key::Tab));
    assert!(r.show_browser());
    assert_eq!(r.focus(), Focus::Browser);
    r.handle_key(press(Key::Tab));
    assert_eq!(r.focus(), Focus::Document);
    r.handle_key(press(Key::Tab));
    assert_eq!(r.focus(), Focus::Browser);
    r.handle_key(press(Key::Char('b')));
    assert!(!r.show_browser());
    assert_eq!(r.focus(), Focus::Document);
}

#[test]
fn typed_path_is_resolved_against_the_browsed_directory() {
    let mut r = reader();
    r.handle_key(press(Key::Char('o')));
    assert_eq!(r.input_mode(), Some(InputMode::Open));
    for c in " notes.mdx".chars() {
        r.handle_key(press(Key::Char(c)));
    }
    r.handle_key(press(Key::Backspace));
    r.handle_key(press(Key::Char(' ')));
    match r.handle_key(press(Key::Enter)) {
        Action::Open(path) => assert_eq!(path, "/work/notes.md"),
        _ => panic!("expected an open"),
    }
    assert_eq!(r.input_mode(), None);
}

#[test]
fn home_relative_path_opens_below_home() {
    let mut r = reader();
    r.handle_key(press(Key::Char('o')));
    for c in "~/a.md".chars() {
        r.handle_key(press(Key::Char(c)));
    }
    match r.handle_key(press(Key::Enter)) {
        Action::Open(path) => assert_eq!(path, "/home/u/a.md"),
        _ => panic!("expected an open"),
    }
}

#[test]
fn prompt_editing_moves_by_characters() {
    let mut r = reader();
    r.handle_key(press(Key::Char('o')));
    for c in "aあb".chars() {
        r.handle_key(press(Key::Char(c)));
    }
    r.handle_key(press(Key::Left));
    r.handle_key(press(Key::Left));
    assert_eq!(r.input_parts(), ("a".to_string(), "あb".to_string()));
    r.handle_key(press(Key::Delete));
    assert_eq!(r.input_parts(), ("a".to_string(), "b".to_string()));
    r.handle_key(press(Key::End));
    r.handle_key(press(Key::Char('€')));
    r.handle_key(press(Key::Home));
    r.handle_key(press(Key::Right));
    assert_eq!(r.input_parts(), ("a".to_string(), "b€".to_string()));
    r.handle_key(press(Key::Esc));
    assert_eq!(r.input_mode(), None);
    assert_eq!(r.input_parts(), (String::new(), String::new()));
}

#[test]
fn empty_prompt_submits_nothing() {
    let mut r = reader();
    r.handle_key(press(Key::Char('o')));
    r.handle_key(press(Key::Char(' ')));
    assert!(matches!(r.handle_key(press(Key::Enter)), Action::Stay));
    assert_eq!(r.input_mode(), None);
}

fn with_document() -> Reader {
    let mut r = reader();
    let source = "Alpha line\nsecond BETA\nthird\nbeta again\n".to_string();
    let lines = vec!["Alpha line", "second BETA", "third", "beta again"];
    let lines = lines.iter().map(|l| l.to_string()).collect();
    r.document_opened("/work/zeta.md".to_string(), source, lines, Ok(listing()));
    r
}

#[test]
fn opening_a_document_selects_it() {
    let r = with_document();
    assert_eq!(r.document_path(), Some(&"/work/zeta.md".to_string()));
    assert_eq!(r.selected(), 5);
    assert_eq!(r.focus(), Focus::Document);
    assert_eq!(r.title(), "zeta.md");
    assert_eq!(r.header_path(), "./zeta.md");
}

#[test]
fn search_finds_matches_and_wraps_around() {
    let mut r = with_document();
    r.handle_key(press(Key::Char('/')));
    assert_eq!(r.input_mode(), Some(InputMode::Search));
    for c in "Beta".chars() {
        r.handle_key(press(Key::Char(c)));
    }
    r.handle_key_with(press(Key::Enter), 100);
    assert_eq!(r.status(), "Match on line 2");
    r.handle_key_with(press(Key::Char('n')), 100);
    assert_eq!(r.status(), "Match on line 4");
    r.handle_key_with(press(Key::Char('n')), 100);
    assert_eq!(r.status(), "Match on line 2");
}

#[test]
fn search_reports_a_miss() {
    let mut r = with_document();
    r.handle_key(press(Key::Char('/')));
    for c in "gamma".chars() {
        r.handle_key(press(Key::Char(c)));
    }
    r.handle_key(press(Key::Enter));
    assert_eq!(r.status(), "No match for gamma");
}

#[test]
fn search_needs_a_document() {
    let mut r = reader();
    r.handle_key(press(Key::Char('/')));
    assert_eq!(r.input_mode(), None);
}

#[test]
fn scrolling_stays_within_the_document() {
    let mut r = with_document();
    r.set_areas(Area::empty(), Area { x: 0, y: 0, width: 40, height: 12 });
    // 30 wrapped lines in a 10-line pane: at most 20 lines of scroll.
    r.handle_key_with(press(Key::Char('j')), 30);
    assert_eq!(r.scroll(), 1);
    r.handle_key_with(press(Key::PageDown), 30);
    assert_eq!(r.scroll(), 13);
    r.handle_key_with(press(Key::PageDown), 30);
    assert_eq!(r.scroll(), 20);
    r.handle_key_with(press(Key::Char('g')), 30);
    assert_eq!(r.scroll(), 0);
    r.handle_key_with(press(Key::Char('G')), 30);
    assert_eq!(r.scroll(), 20);
    r.handle_key_with(press(Key::Up), 30);
    assert_eq!(r.scroll(), 19);
    // The open document itself has four short lines: nothing to scroll.
    assert_eq!(r.effective_scroll(), 0);
    assert_eq!(r.document_content_width(), 36);
}

fn document_of(lines: Vec<String>) -> Reader {
    let mut r = reader();
    let source = lines.join("\n");
    r.document_opened("/work/zeta.md".to_string(), source, lines, Ok(listing()));
    r.set_areas(Area::empty(), Area { x: 0, y: 0, width: 40, height: 12 });
    r
}

#[test]
fn scrolling_measures_the_open_document() {
    let lines: Vec<String> = (1..=30).map(|n| format!("line {n}")).collect();
    let mut r = document_of(lines);
    r.handle_key(press(Key::Char('G')));
    assert_eq!(r.scroll(), 20);
    r.handle_key(press(Key::PageDown));
    assert_eq!(r.scroll(), 20);
    r.handle_key(press(Key::Up));
    assert_eq!(r.effective_scroll(), 19);
    r.handle_mouse(MouseAction { kind: MouseKind::ScrollDown, column: 5, row: 5 });
    assert_eq!(r.scroll(), 20);
}

#[test]
fn long_lines_wrap_to_the_pane_width() {
    // Eleven lines, the last of 100 letters: 36 columns wrap it into
    // three rows, so the text takes 13 rows of the 10 shown.
    let mut lines: Vec<String> = (1..=10).map(|n| format!("line {n}")).collect();
    lines.push("a".repeat(100));
    let mut r = document_of(lines);
    r.handle_key(press(Key::Char('G')));
    assert_eq!(r.scroll(), 3);
}

#[test]
fn selection_moves_within_the_list() {
    let mut r = reader();
    r.handle_key(press(Key::Tab));
    r.handle_key(press(Key::Char('k')));
    assert_eq!(r.selected(), 0);
    for _ in 0..10 {
        r.handle_key(press(Key::Down));
    }
    assert_eq!(r.selected(), 5);
    match r.handle_key(press(Key::Enter)) {
        Action::Open(path) => assert_eq!(path, "/work/zeta.md"),
        _ => panic!("expected an open"),
    }
}

#[test]
fn mouse_selects_and_focuses() {
    let mut r = reader();
    r.handle_key(press(Key::Tab));
    r.set_areas(Area { x: 0, y: 3, width: 28, height: 20 }, Area { x: 29, y: 3, width: 50, height: 20 });
    r.handle_mouse(MouseAction { kind: MouseKind::LeftDown, column: 5, row: 6 });
    assert_eq!(r.selected(), 2);
    assert_eq!(r.focus(), Focus::Browser);
    r.handle_mouse(MouseAction { kind: MouseKind::ScrollDown, column: 5, row: 6 });
    assert_eq!(r.selected(), 5);
    r.handle_mouse(MouseAction { kind: MouseKind::LeftDown, column: 40, row: 6 });
    assert_eq!(r.focus(), Focus::Document);
    assert!(rect_contains(Area { x: 1, y: 1, width: 2, height: 2 }, 2, 2));
    assert!(!rect_contains(Area { x: 1, y: 1, width: 2, height: 2 }, 3, 2));
}

#[test]
fn reload_and_copy_need_a_document() {
    let mut r = reader();
    assert!(matches!(r.handle_key(press(Key::Char('r'))), Action::Stay));
    assert_eq!(r.status(), "No document is open");
    assert!(matches!(r.handle_key(press(Key::Char('c'))), Action::Stay));
    assert_eq!(r.status(), "Open a document before copying context");
    let mut r = with_document();
    match r.handle_key(press(Key::Char('r'))) {
        Action::Reload(path) => assert_eq!(path, "/work/zeta.md"),
        _ => panic!("expected a reload"),
    }
    r.document_reloaded("/work/zeta.md".to_string(), "new".to_string(), vec!["new".to_string()]);
    assert_eq!(r.status(), "Reloaded");
    assert!(matches!(r.handle_key(press(Key::Char('c'))), Action::CopyContext));
    r.context_copied();
    assert_eq!(r.status(), "Copied normalized LLM context");
    r.report("clipboard unavailable".to_string());
    assert_eq!(r.hint(), "clipboard unavailable");
}

#[test]
fn entering_a_directory_shows_the_browser() {
    let mut r = reader();
    r.enter_directory(
        "/work/docs".to_string(),
        Ok(vec![item("/work/docs/b.md", false, true), item("/work/docs/a.md", false, true)]),
    );
    assert!(r.show_browser());
    assert_eq!(r.focus(), Focus::Browser);
    assert_eq!(paths(&r), vec!["/work", "/work/docs/a.md", "/work/docs/b.md"]);
    assert_eq!(r.header_path(), "./docs");
    assert_eq!(r.hint(), "Ask about this document with / to search, or press o to open another file");
}

#[test]
fn startup_focus_follows_what_was_opened() {
    let mut r = reader();
    r.finish_opening(true);
    assert!(r.show_browser());
    let mut r = with_document();
    r.finish_opening(true);
    assert!(!r.show_browser());
    r.finish_opening(false);
    assert!(r.show_browser());
    assert_eq!(r.focus(), Focus::Browser);
}

#[test]
fn initial_target_prefers_the_explicit_path_then_the_readme() {
    let r = reader();
    assert_eq!(r.initial_target(Some("guide.md")), Some("/work/guide.md".to_string()));
    assert_eq!(r.initial_target(None), Some("/work/README.md".to_string()));
    let empty = Reader::new("/empty".to_string(), None, Ok(vec![item("/empty/sub", true, false)]));
    assert_eq!(empty.initial_target(None), None);
}

#[test]
fn layout_places_the_panes() {
    let mut r = reader();
    let screen = Area { x: 0, y: 0, width: 100, height: 40 };
    let panes = r.lay_out(screen);
    assert_eq!(panes.header, Area { x: 0, y: 0, width: 100, height: 3 });
    assert_eq!(panes.footer, Area { x: 0, y: 39, width: 100, height: 1 });
    assert_eq!(panes.document, Area { x: 0, y: 3, width: 100, height: 33 });
    assert_eq!(panes.browser, Area::empty());
    assert_eq!(r.document_area(), panes.document);
    r.handle_key(press(Key::Tab));
    let panes = r.lay_out(screen);
    assert_eq!(panes.browser, Area { x: 0, y: 3, width: 28, height: 33 });
    assert_eq!(panes.document, Area { x: 29, y: 3, width: 71, height: 33 });
    assert_eq!(panes.divider, Area { x: 28, y: 3, width: 1, height: 33 });
    assert_eq!(panes.prompt, Area { x: 0, y: 36, width: 100, height: 3 });
    assert_eq!(panes.help, Area { x: 14, y: 7, width: 72, height: 26 });
}

#[test]
fn typing_then_backspace_restores_the_prompt() {
    let mut r = reader();
    r.handle_key(press(Key::Char('o')));
    for c in "aé".chars() {
        r.handle_key(press(Key::Char(c)));
    }
    r.handle_key(press(Key::Left));
    let before = r.input_parts();
    r.handle_key(press(Key::Char('😀')));
    assert_eq!(r.input_parts(), ("a😀".to_string(), "é".to_string()));
    r.handle_key(press(Key::Backspace));
    assert_eq!(r.input_parts(), before);
}
