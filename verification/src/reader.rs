//! The document reader's state and how it answers each key press, mouse
//! action and finished file operation. Drawing, terminal events and file
//! access happen around it; what they report comes in as plain values and
//! what they must do goes out as an `Action`.

use vstd::prelude::*;
use vstd::utf8::*;
use vstd::string::StringSliceAdditionalSpecFns;
use crate::text::{
    ascii_lowercase, chars_of, contains_chars, contains_text, decimal, decimal_string, is_next_boundary,
    is_previous_boundary, lemma_boundary_at_join, lemma_boundary_shift, lemma_no_boundary_inside_char, lemma_boundary_moves_unique, lemma_encode_concat,
    lines_of, lowercase_chars, next_char_boundary, previous_char_boundary, push_char, string_of,
    opt_text, text_lines, trim, trim_chars, utf8_width,
};
use crate::layout::{count_wrapped_lines, line_texts, wrapped_line_count};
use crate::paths::{resolve_path, resolved_path, parent_path, path_parent, paths_equal};
use crate::listing::{
    browser_candidates, browser_entries, entry_views, in_browser_order, shown_items, EntryModel,
    FileEntry, ListedItem, listed_views, ListedModel,
};

verus! {

broadcast use vstd::slice::group_slice_axioms, vstd::string::group_string_axioms;

/// Which pane keys go to.
#[derive(Clone, Copy, Debug, PartialEq, Eq, Structural)]
pub enum Focus {
    Browser,
    Document,
}

/// What the prompt is collecting.
#[derive(Clone, Copy, Debug, PartialEq, Eq, Structural)]
pub enum InputMode {
    Open,
    Search,
}

/// A rectangle of terminal cells.
#[derive(Clone, Copy, Debug, PartialEq, Eq, Structural)]
pub struct Area {
    pub x: u16,
    pub y: u16,
    pub width: u16,
    pub height: u16,
}

impl Area {
    /// The empty rectangle at the origin.
    pub fn empty() -> (r: Area)
        ensures
            r == (Area { x: 0, y: 0, width: 0, height: 0 }),
    {
        Area { x: 0, y: 0, width: 0, height: 0 }
    }
}

/// `a + b`, or `u16::MAX` when that does not fit.
pub open spec fn add_cells(a: u16, b: u16) -> int {
    if a + b > u16::MAX {
        u16::MAX as int
    } else {
        a + b
    }
}

/// The cell at `column`, `row` lies in `rect`.
pub open spec fn in_area(rect: Area, column: u16, row: u16) -> bool {
    &&& column >= rect.x
    &&& column < add_cells(rect.x, rect.width)
    &&& row >= rect.y
    &&& row < add_cells(rect.y, rect.height)
}

/// Whether the cell at `column`, `row` lies in `rect`.
pub fn rect_contains(rect: Area, column: u16, row: u16) -> (r: bool)
    ensures
        r == in_area(rect, column, row),
{
    column >= rect.x && column < rect.x.saturating_add(rect.width) && row >= rect.y && row
        < rect.y.saturating_add(rect.height)
}

/// A key on the keyboard, as far as the reader tells keys apart.
#[derive(Clone, Copy, Debug, PartialEq, Eq, Structural)]
pub enum Key {
    Char(char),
    Esc,
    Enter,
    Tab,
    Backspace,
    Delete,
    Left,
    Right,
    Up,
    Down,
    Home,
    End,
    PageUp,
    PageDown,
    Other,
}

/// A key press, with whether Control was held.
#[derive(Clone, Copy, Debug, PartialEq, Eq, Structural)]
pub struct KeyPress {
    pub key: Key,
    pub control: bool,
}

/// What the mouse did.
#[derive(Clone, Copy, Debug, PartialEq, Eq, Structural)]
pub enum MouseKind {
    ScrollUp,
    ScrollDown,
    LeftDown,
    Other,
}

/// A mouse action at a cell.
#[derive(Clone, Copy, Debug, PartialEq, Eq, Structural)]
pub struct MouseAction {
    pub kind: MouseKind,
    pub column: u16,
    pub row: u16,
}

/// The document that is open: where it came from, its normalized text
/// (which search reads) and the text of the lines it is drawn as (which
/// scrolling measures).
pub struct OpenDocument {
    pub path: String,
    pub source: String,
    pub lines: Vec<String>,
}

/// An open document as its text.
pub struct DocumentModel {
    pub path: Seq<char>,
    pub source: Seq<char>,
    pub lines: Seq<Seq<char>>,
}

impl View for OpenDocument {
    type V = DocumentModel;

    open spec fn view(&self) -> DocumentModel {
        DocumentModel { path: self.path@, source: self.source@, lines: line_texts(self.lines@) }
    }
}

/// What the caller must do after a key press.
pub enum Action {
    /// Nothing.
    Stay,
    /// Close the reader.
    Quit,
    /// Open the given (already resolved) path: browse it if it is a
    /// directory, else load it as a document.
    Open(String),
    /// Load the open document again from the given path.
    Reload(String),
    /// Copy the open document's normalized context to the clipboard.
    CopyContext,
}

/// An action as its text.
pub enum ActionModel {
    Stay,
    Quit,
    Open(Seq<char>),
    Reload(Seq<char>),
    CopyContext,
}

impl View for Action {
    type V = ActionModel;

    open spec fn view(&self) -> ActionModel {
        match self {
            Action::Stay => ActionModel::Stay,
            Action::Quit => ActionModel::Quit,
            Action::Open(p) => ActionModel::Open(p@),
            Action::Reload(p) => ActionModel::Reload(p@),
            Action::CopyContext => ActionModel::CopyContext,
        }
    }
}

/// The reader's state.
pub struct Reader {
    root_dir: String,
    browser_dir: String,
    home: Option<String>,
    entries: Vec<FileEntry>,
    selected: usize,
    document: Option<OpenDocument>,
    focus: Focus,
    show_browser: bool,
    input_mode: Option<InputMode>,
    input: String,
    input_cursor: usize,
    search_query: Option<String>,
    last_match_line: Option<usize>,
    scroll: usize,
    status: String,
    show_help: bool,
    browser_area: Area,
    document_area: Area,
}

/// The reader's state as values.
pub struct ReaderModel {
    pub root_dir: Seq<char>,
    pub browser_dir: Seq<char>,
    pub home: Option<Seq<char>>,
    pub entries: Seq<EntryModel>,
    pub selected: int,
    pub document: Option<DocumentModel>,
    pub focus: Focus,
    pub show_browser: bool,
    pub input_mode: Option<InputMode>,
    pub input: Seq<char>,
    pub input_cursor: int,
    pub search_query: Option<Seq<char>>,
    pub last_match_line: Option<int>,
    pub scroll: int,
    pub status: Seq<char>,
    pub show_help: bool,
    pub browser_area: Area,
    pub document_area: Area,
}

impl View for Reader {
    type V = ReaderModel;

    closed spec fn view(&self) -> ReaderModel {
        ReaderModel {
            root_dir: self.root_dir@,
            browser_dir: self.browser_dir@,
            home: opt_text(self.home),
            entries: entry_views(self.entries@),
            selected: self.selected as int,
            document: match self.document {
                Some(d) => Some(d@),
                None => None,
            },
            focus: self.focus,
            show_browser: self.show_browser,
            input_mode: self.input_mode,
            input: self.input@,
            input_cursor: self.input_cursor as int,
            search_query: opt_text(self.search_query),
            last_match_line: match self.last_match_line {
                Some(l) => Some(l as int),
                None => None,
            },
            scroll: self.scroll as int,
            status: self.status@,
            show_help: self.show_help,
            browser_area: self.browser_area,
            document_area: self.document_area,
        }
    }
}

/// `a - b`, or zero when `b` is larger.
pub open spec fn minus(a: int, b: int) -> int {
    if a > b {
        a - b
    } else {
        0
    }
}

/// `a + b`, or `usize::MAX` when that does not fit.
pub open spec fn plus(a: int, b: int) -> int {
    if a + b > usize::MAX {
        usize::MAX as int
    } else {
        a + b
    }
}

/// `a`, or one when `a` is smaller.
pub open spec fn at_least_one(a: int) -> int {
    if a < 1 {
        1
    } else {
        a
    }
}

/// The smaller of `a` and `b`.
pub open spec fn smaller(a: int, b: int) -> int {
    if a < b {
        a
    } else {
        b
    }
}

/// How far a text of `wrapped` lines can scroll in a view `height` lines
/// tall: until its last line is at the bottom.
pub open spec fn max_scroll(wrapped: int, height: int) -> int {
    minus(wrapped, at_least_one(height))
}

/// The width of the text in the document pane (two columns of margin on
/// each side, at least one column).
pub open spec fn content_width(v: ReaderModel) -> int {
    at_least_one(minus(v.document_area.width as int, 4))
}

/// The number of lines the open document takes when wrapped to the pane's
/// text width (none without a document).
pub open spec fn wrapped_of(v: ReaderModel) -> int {
    match v.document {
        Some(d) => wrapped_line_count(d.lines, content_width(v) as u16),
        None => 0,
    }
}

/// The height of the text in the document pane (a line of margin above
/// and below).
pub open spec fn content_height(v: ReaderModel) -> int {
    minus(v.document_area.height as int, 2)
}

/// The input cursor sits on a character boundary and the selection on an
/// entry (or at the top of an empty list).
pub open spec fn well_formed(v: ReaderModel) -> bool {
    &&& v.entries.len() <= usize::MAX
    &&& v.selected == 0 || v.selected < v.entries.len()
    &&& is_char_boundary(encode_utf8(v.input), v.input_cursor)
}

/// Keeps the scroll position where the document's last line is at most at
/// the bottom of the pane; `wrapped` is the document's line count when
/// wrapped to the pane's text width.
pub open spec fn clamp_scroll(v: ReaderModel, wrapped: int) -> ReaderModel {
    if v.document is Some {
        ReaderModel { scroll: smaller(v.scroll, max_scroll(wrapped, content_height(v))), ..v }
    } else {
        v
    }
}

/// Scrolls the document by `amount` lines (up when negative).
pub open spec fn scroll_by_lines(v: ReaderModel, amount: int, wrapped: int) -> ReaderModel {
    let scroll = if amount < 0 {
        minus(v.scroll, -amount)
    } else {
        plus(v.scroll, amount)
    };
    clamp_scroll(ReaderModel { scroll, ..v }, wrapped)
}

/// Scrolls by a page, the pane's height (at least one line), in the given
/// direction.
pub open spec fn scroll_by_page(v: ReaderModel, direction: int, wrapped: int) -> ReaderModel {
    let amount = at_least_one(v.document_area.height as int);
    let scroll = if direction < 0 {
        minus(v.scroll, amount)
    } else {
        plus(v.scroll, amount)
    };
    clamp_scroll(ReaderModel { scroll, ..v }, wrapped)
}

/// Scrolls to where the document's last line is at the bottom.
pub open spec fn scroll_to_end(v: ReaderModel, wrapped: int) -> ReaderModel {
    if v.document is Some {
        ReaderModel { scroll: max_scroll(wrapped, content_height(v)), ..v }
    } else {
        v
    }
}

/// Moves the browser's selection by `amount` entries, staying on the list.
pub open spec fn move_selected(v: ReaderModel, amount: int) -> ReaderModel {
    if v.entries.len() == 0 {
        v
    } else if amount < 0 {
        ReaderModel { selected: minus(v.selected, -amount), ..v }
    } else {
        ReaderModel { selected: smaller(plus(v.selected, amount), v.entries.len() - 1), ..v }
    }
}

/// Moves the selection when the browser has focus, else scrolls.
pub open spec fn move_or_scroll_by(v: ReaderModel, amount: int, wrapped: int) -> ReaderModel {
    if v.focus == Focus::Browser {
        move_selected(v, amount)
    } else {
        scroll_by_lines(v, amount, wrapped)
    }
}

/// Shows, hides or refocuses the browser. `Tab` (`focus_browser`) shows it
/// or switches focus between panes; `b` hides a shown browser.
pub open spec fn browser_toggled(v: ReaderModel, focus_browser: bool) -> ReaderModel {
    if v.show_browser && !focus_browser {
        ReaderModel { show_browser: false, focus: Focus::Document, ..v }
    } else if v.show_browser {
        ReaderModel {
            focus: if v.focus == Focus::Browser {
                Focus::Document
            } else {
                Focus::Browser
            },
            ..v
        }
    } else {
        ReaderModel { show_browser: true, focus: Focus::Browser, ..v }
    }
}

/// Starts collecting a path or a search in the prompt.
pub open spec fn input_begun(v: ReaderModel, mode: InputMode) -> ReaderModel {
    ReaderModel { input_mode: Some(mode), input: seq![], input_cursor: 0, status: seq![], ..v }
}

/// Leaves the prompt.
pub open spec fn input_cancelled(v: ReaderModel) -> ReaderModel {
    ReaderModel { input_mode: None, input: seq![], input_cursor: 0, ..v }
}


/// The character boundary just before byte offset `i` of `bytes`.
pub open spec fn boundary_before(bytes: Seq<u8>, i: int) -> int {
    choose|r: int| is_previous_boundary(bytes, i, r)
}

/// The character boundary just after byte offset `i` of `bytes`.
pub open spec fn boundary_after(bytes: Seq<u8>, i: int) -> int {
    choose|r: int| is_next_boundary(bytes, i, r)
}

/// The prompt after an editing key. The cursor is a byte offset into the
/// UTF-8 text; it moves, deletes and inserts whole characters. A typed
/// character is refused only when the text would outgrow `usize`, which no
/// `String` can reach.
pub open spec fn input_edited(v: ReaderModel, press: KeyPress) -> ReaderModel {
    let bytes = encode_utf8(v.input);
    let c = v.input_cursor;
    match press.key {
        Key::Backspace => if c > 0 {
            let p = boundary_before(bytes, c);
            ReaderModel {
                input: decode_utf8(bytes.take(p)) + decode_utf8(bytes.skip(c)),
                input_cursor: p,
                ..v
            }
        } else {
            v
        },
        Key::Delete => if c < bytes.len() {
            let n = boundary_after(bytes, c);
            ReaderModel { input: decode_utf8(bytes.take(c)) + decode_utf8(bytes.skip(n)), ..v }
        } else {
            v
        },
        Key::Left => ReaderModel { input_cursor: boundary_before(bytes, c), ..v },
        Key::Right => ReaderModel { input_cursor: boundary_after(bytes, c), ..v },
        Key::Home => ReaderModel { input_cursor: 0, ..v },
        Key::End => ReaderModel { input_cursor: bytes.len() as int, ..v },
        Key::Char(ch) => if !press.control && bytes.len() + encode_scalar(ch as u32).len()
            <= usize::MAX {
            ReaderModel {
                input: decode_utf8(bytes.take(c)) + seq![ch] + decode_utf8(bytes.skip(c)),
                input_cursor: c + encode_scalar(ch as u32).len(),
                ..v
            }
        } else {
            v
        },
        _ => v,
    }
}

/// The line contains the query, ignoring ASCII case (the query is already
/// lowered).
pub open spec fn line_matches(line: Seq<char>, query: Seq<char>) -> bool {
    contains_text(ascii_lowercase(line), query)
}

/// The first matching line met when walking the lines from `start + k`,
/// wrapping around at the end, before coming back to `start`.
pub open spec fn first_match_from(lines: Seq<Seq<char>>, query: Seq<char>, start: int, k: int) -> Option<int>
    decreases lines.len() - k,
{
    if k < 0 || k >= lines.len() {
        None
    } else {
        let i = (start + k) % (lines.len() as int);
        if line_matches(lines[i], query) {
            Some(i)
        } else {
            first_match_from(lines, query, start, k + 1)
        }
    }
}

/// Finds the next line of the document that holds the search query,
/// after the previous match (wrapping around), and scrolls to it.
pub open spec fn search_step(v: ReaderModel, wrapped: int) -> ReaderModel {
    match (v.search_query, v.document) {
        (Some(q), Some(doc)) => {
            let lines = text_lines(doc.source);
            if lines.len() == 0 {
                ReaderModel { status: "Document is empty"@, ..v }
            } else {
                let start = match v.last_match_line {
                    Some(l) => plus(l, 1),
                    None => 0,
                };
                match first_match_from(lines, q, start, 0) {
                    Some(i) => ReaderModel {
                        last_match_line: Some(i),
                        scroll: smaller(i, max_scroll(wrapped, content_height(v))),
                        status: "Match on line "@ + decimal((i + 1) as nat),
                        ..v
                    },
                    None => ReaderModel { status: "No match for "@ + q, ..v },
                }
            }
        },
        _ => v,
    }
}

/// A key pressed while the prompt is open: `Esc` leaves it, `Enter`
/// submits the trimmed text (a path to open, or a search), anything else
/// edits it.
pub open spec fn input_key_result(v: ReaderModel, press: KeyPress, wrapped: int) -> (ReaderModel, ActionModel) {
    match press.key {
        Key::Esc => (input_cancelled(v), ActionModel::Stay),
        Key::Enter => {
            let value = trim(v.input);
            let closed = input_cancelled(v);
            if value.len() == 0 {
                (closed, ActionModel::Stay)
            } else if v.input_mode == Some(InputMode::Open) {
                (closed, ActionModel::Open(resolved_path(value, closed.browser_dir, closed.home)))
            } else {
                (
                    search_step(
                        ReaderModel {
                            search_query: Some(ascii_lowercase(value)),
                            last_match_line: None,
                            ..closed
                        },
                        wrapped,
                    ),
                    ActionModel::Stay,
                )
            }
        },
        _ => (input_edited(v, press), ActionModel::Stay),
    }
}


/// Where `Enter` in the browser leads: the selected entry's path.
pub open spec fn selected_target(v: ReaderModel) -> ActionModel {
    if 0 <= v.selected < v.entries.len() {
        ActionModel::Open(resolved_path(v.entries[v.selected].path, v.browser_dir, v.home))
    } else {
        ActionModel::Stay
    }
}

/// The state after a key press, and what the caller must do. While help
/// is shown only `Esc`, `?` and `q` (closing it) count; while the prompt is
/// open keys go to it; otherwise each key has its command.
pub open spec fn key_result(v: ReaderModel, press: KeyPress, wrapped: int) -> (ReaderModel, ActionModel) {
    let k = press.key;
    if v.show_help {
        if k == Key::Esc || k == Key::Char('?') || k == Key::Char('q') {
            (ReaderModel { show_help: false, ..v }, ActionModel::Stay)
        } else {
            (v, ActionModel::Stay)
        }
    } else if v.input_mode is Some {
        input_key_result(v, press, wrapped)
    } else if press.control && k == Key::Char('c') {
        (v, ActionModel::Quit)
    } else if k == Key::Char('q') || k == Key::Esc {
        (v, ActionModel::Quit)
    } else if k == Key::Char('?') {
        (ReaderModel { show_help: true, ..v }, ActionModel::Stay)
    } else if k == Key::Tab {
        (browser_toggled(v, true), ActionModel::Stay)
    } else if k == Key::Char('b') {
        (browser_toggled(v, false), ActionModel::Stay)
    } else if k == Key::Char('o') {
        (input_begun(v, InputMode::Open), ActionModel::Stay)
    } else if k == Key::Char('/') && v.document is Some {
        (input_begun(v, InputMode::Search), ActionModel::Stay)
    } else if k == Key::Char('n') && v.search_query is Some {
        (search_step(v, wrapped), ActionModel::Stay)
    } else if k == Key::Char('r') {
        match v.document {
            Some(d) => (v, ActionModel::Reload(d.path)),
            None => (ReaderModel { status: "No document is open"@, ..v }, ActionModel::Stay),
        }
    } else if k == Key::Char('c') {
        match v.document {
            Some(_) => (v, ActionModel::CopyContext),
            None => (
                ReaderModel { status: "Open a document before copying context"@, ..v },
                ActionModel::Stay,
            ),
        }
    } else if k == Key::Char('g') {
        (ReaderModel { scroll: 0, ..v }, ActionModel::Stay)
    } else if k == Key::Char('G') {
        (scroll_to_end(v, wrapped), ActionModel::Stay)
    } else if k == Key::Char('j') || k == Key::Down {
        (move_or_scroll_by(v, 1, wrapped), ActionModel::Stay)
    } else if k == Key::Char('k') || k == Key::Up {
        (move_or_scroll_by(v, -1, wrapped), ActionModel::Stay)
    } else if k == Key::PageDown || k == Key::Char(' ') {
        (scroll_by_page(v, 1, wrapped), ActionModel::Stay)
    } else if k == Key::PageUp {
        (scroll_by_page(v, -1, wrapped), ActionModel::Stay)
    } else if k == Key::Enter && v.focus == Focus::Browser {
        (v, selected_target(v))
    } else {
        (v, ActionModel::Stay)
    }
}

/// The state after a mouse action. The wheel moves the browser's selection
/// over the browser and scrolls elsewhere; a left click selects the entry
/// under it in the browser, or focuses the document pane.
pub open spec fn mouse_result(v: ReaderModel, mouse: MouseAction, wrapped: int) -> ReaderModel {
    let in_browser = v.show_browser && in_area(v.browser_area, mouse.column, mouse.row);
    match mouse.kind {
        MouseKind::ScrollUp => if in_browser {
            move_selected(v, -3)
        } else {
            scroll_by_lines(v, -3, wrapped)
        },
        MouseKind::ScrollDown => if in_browser {
            move_selected(v, 3)
        } else {
            scroll_by_lines(v, 3, wrapped)
        },
        MouseKind::LeftDown => if in_browser {
            let index = minus(mouse.row as int, add_cells(v.browser_area.y, 1));
            if index < v.entries.len() {
                ReaderModel { selected: index, focus: Focus::Browser, ..v }
            } else {
                v
            }
        } else if in_area(v.document_area, mouse.column, mouse.row) {
            ReaderModel { focus: Focus::Document, ..v }
        } else {
            v
        },
        MouseKind::Other => v,
    }
}


/// The items of a directory listing; a listing that failed has none.
pub open spec fn listing_items(listing: Result<Vec<ListedItem>, String>) -> Seq<ListedModel> {
    match listing {
        Ok(items) => listed_views(items@),
        Err(_) => seq![],
    }
}

/// The status after listing the browsed directory: unchanged, or the
/// reason the directory could not be read.
pub open spec fn listing_status(v: ReaderModel, listing: Result<Vec<ListedItem>, String>) -> Seq<char> {
    match listing {
        Ok(_) => v.status,
        Err(e) => "Cannot read "@ + v.browser_dir + ": "@ + e@,
    }
}

/// `entries` are the browser's entries for `dir` and its listing: the
/// same entries as the candidates, in the browser's order.
pub open spec fn lists_directory(entries: Seq<EntryModel>, dir: Seq<char>, items: Seq<ListedModel>) -> bool {
    &&& entries.to_multiset() == browser_candidates(dir, items).to_multiset()
    &&& in_browser_order(entries, parent_path(dir))
}

/// The selection kept within a list of `len` entries.
pub open spec fn selection_within(selected: int, len: int) -> int {
    smaller(selected, minus(len, 1))
}

/// The directory the browser shows once `path` is open as a document: the
/// document's own directory, else the one already shown.
pub open spec fn document_directory_of(v: ReaderModel, path: Seq<char>) -> Seq<char> {
    match parent_path(path) {
        Some(p) => p,
        None => v.browser_dir,
    }
}

/// The first entry, from `k` on, whose path is the same path as `path`.
pub open spec fn index_of_path(entries: Seq<EntryModel>, path: Seq<char>, k: int) -> Option<int>
    decreases entries.len() - k,
{
    if k < 0 || k >= entries.len() {
        None
    } else if crate::paths::paths_equal(entries[k].path, path) {
        Some(k)
    } else {
        index_of_path(entries, path, k + 1)
    }
}

/// A readme: a file whose name is `readme.md` in any ASCII case.
pub open spec fn is_readme(e: EntryModel) -> bool {
    !e.is_dir && (crate::paths::file_name_of(e.path) matches Some(name) && ascii_lowercase(name)
        == ascii_lowercase("readme.md"@))
}

/// The first entry, from `k` on, that is a readme.
pub open spec fn first_readme(entries: Seq<EntryModel>, k: int) -> Option<int>
    decreases entries.len() - k,
{
    if k < 0 || k >= entries.len() {
        None
    } else if is_readme(entries[k]) {
        Some(k)
    } else {
        first_readme(entries, k + 1)
    }
}

/// The first entry, from `k` on, that is a file.
pub open spec fn first_file(entries: Seq<EntryModel>, k: int) -> Option<int>
    decreases entries.len() - k,
{
    if k < 0 || k >= entries.len() {
        None
    } else if !entries[k].is_dir {
        Some(k)
    } else {
        first_file(entries, k + 1)
    }
}

/// The document to open when none was named: the first readme, else the
/// first file.
pub open spec fn preferred_entry(entries: Seq<EntryModel>) -> Option<int> {
    match first_readme(entries, 0) {
        Some(i) => Some(i),
        None => first_file(entries, 0),
    }
}


/// The title of the header: the open document's file name, or a prompt
/// to open one.
pub open spec fn title_of(v: ReaderModel) -> Seq<char> {
    match v.document {
        Some(d) => match crate::paths::file_name_of(d.path) {
            Some(name) => name,
            None => "document"@,
        },
        None => "Open a document"@,
    }
}

/// The hint in the prompt when it is closed: the status, or the default
/// hint when there is none.
pub open spec fn hint_of(v: ReaderModel) -> Seq<char> {
    if v.status.len() == 0 {
        "Ask about this document with / to search, or press o to open another file"@
    } else {
        v.status
    }
}


/// What the reader opens at start: the path named explicitly, else the
/// preferred document of the starting directory, resolved against it.
pub open spec fn initial_target_of(v: ReaderModel, explicit: Option<Seq<char>>) -> Option<Seq<char>> {
    match explicit {
        Some(raw) => Some(resolved_path(raw, v.browser_dir, v.home)),
        None => match preferred_entry(v.entries) {
            Some(i) => Some(resolved_path(v.entries[i].path, v.browser_dir, v.home)),
            None => None,
        },
    }
}

impl Reader {
    /// The state keeps the invariant of `well_formed`.
    pub open spec fn wf(&self) -> bool {
        well_formed(self@)
    }

    /// The counters of the model are those of a running reader: the
    /// selection, the scroll position, the prompt's cursor and the last
    /// matched line each fit in a `usize`, and so does the number of
    /// entries of a well-formed reader.
    pub proof fn lemma_model_bounds(&self)
        ensures
            self.wf() ==> self@.entries.len() <= usize::MAX,
            0 <= self@.selected <= usize::MAX,
            0 <= self@.scroll <= usize::MAX,
            0 <= self@.input_cursor <= usize::MAX,
            self@.last_match_line matches Some(l) ==> 0 <= l <= usize::MAX,
    {
    }

    proof fn lemma_view_entries(&self)
        ensures
            self@.entries.len() == self.entries@.len(),
            forall|i: int| 0 <= i < self.entries@.len() ==> #[trigger] self@.entries[i] == self.entries@[i]@,
    {
    }

    fn owned(text: &str) -> (r: String)
        ensures
            r@ == text@,
    {
        string_of(&chars_of(text))
    }

    /// The reader on `root_dir` with its listing, before any document is
    /// open. `home` is the user's home directory, for `~` in typed paths.
    pub fn new(root_dir: String, home: Option<String>, listing: Result<Vec<ListedItem>, String>) -> (r: Reader)
        ensures
            r.wf(),
            lists_directory(r@.entries, root_dir@, listing_items(listing)),
            r@ == (ReaderModel {
                root_dir: root_dir@,
                browser_dir: root_dir@,
                home: opt_text(home),
                entries: r@.entries,
                selected: 0,
                document: None,
                focus: Focus::Document,
                show_browser: false,
                input_mode: None,
                input: seq![],
                input_cursor: 0,
                search_query: None,
                last_match_line: None,
                scroll: 0,
                status: match listing {
                    Ok(_) => seq![],
                    Err(e) => "Cannot read "@ + root_dir@ + ": "@ + e@,
                },
                show_help: false,
                browser_area: Area { x: 0, y: 0, width: 0, height: 0 },
                document_area: Area { x: 0, y: 0, width: 0, height: 0 },
            }),
    {
        let browser_dir = string_of(&chars_of(root_dir.as_str()));
        let mut reader = Reader {
            root_dir,
            browser_dir,
            home,
            entries: Vec::new(),
            selected: 0,
            document: None,
            focus: Focus::Document,
            show_browser: false,
            input_mode: None,
            input: String::new(),
            input_cursor: 0,
            search_query: None,
            last_match_line: None,
            scroll: 0,
            status: String::new(),
            show_help: false,
            browser_area: Area::empty(),
            document_area: Area::empty(),
        };
        proof {
            assert(encode_utf8(Seq::<char>::empty()) =~= Seq::<u8>::empty());
            assert(entry_views(reader.entries@) =~= Seq::<EntryModel>::empty());
        }
        reader.refresh_entries(listing);
        reader
    }

    /// After the first document was opened (or not): the browser shows,
    /// with focus, unless a document named explicitly is open.
    pub fn finish_opening(&mut self, explicit_path: bool)
        ensures
            final(self)@ == (if old(self)@.document is None || !explicit_path {
                ReaderModel { show_browser: true, focus: Focus::Browser, ..old(self)@ }
            } else {
                old(self)@
            }),
    {
        if self.document.is_none() || !explicit_path {
            self.show_browser = true;
            self.focus = Focus::Browser;
        }
    }

    /// The path to open at start, if any (see `initial_target_of`).
    pub fn initial_target(&self, explicit: Option<&str>) -> (r: Option<String>)
        ensures
            match initial_target_of(
                self@,
                match explicit {
                    Some(e) => Some(e@),
                    None => None,
                },
            ) {
                Some(p) => r matches Some(t) && t@ == p,
                None => r is None,
            },
    {
        let home = match &self.home {
            Some(h) => Some(h.as_str()),
            None => None,
        };
        match explicit {
            Some(raw) => Some(resolve_path(raw, self.browser_dir.as_str(), home)),
            None => match self.preferred_document() {
                Some(path) => Some(resolve_path(path.as_str(), self.browser_dir.as_str(), home)),
                None => None,
            },
        }
    }

    /// The document to open at start when none was named.
    pub fn preferred_document(&self) -> (r: Option<String>)
        ensures
            match preferred_entry(self@.entries) {
                Some(i) => r matches Some(p) && p@ == self@.entries[i].path,
                None => r is None,
            },
    {
        proof {
            self.lemma_view_entries();
        }
        let readme = lowercase_chars(&chars_of("readme.md"));
        let ghost entries = self@.entries;
        let mut k: usize = 0;
        while k < self.entries.len()
            invariant
                k <= self.entries@.len(),
                entries == self@.entries,
                entries.len() == self.entries@.len(),
                forall|i: int| 0 <= i < self.entries@.len() ==> #[trigger] entries[i] == self.entries@[i]@,
                readme@ == ascii_lowercase("readme.md"@),
                first_readme(entries, 0) == first_readme(entries, k as int),
            decreases self.entries@.len() - k,
        {
            let e = &self.entries[k];
            if !e.is_dir {
                if let Some(name) = crate::paths::path_file_name(e.path.as_str()) {
                    let lowered = lowercase_chars(&chars_of(name.as_str()));
                    if crate::text::chars_equal(&lowered, &readme) {
                        return Some(e.path.clone());
                    }
                }
            }
            k = k + 1;
        }
        let mut k: usize = 0;
        while k < self.entries.len()
            invariant
                k <= self.entries@.len(),
                entries == self@.entries,
                entries.len() == self.entries@.len(),
                forall|i: int| 0 <= i < self.entries@.len() ==> #[trigger] entries[i] == self.entries@[i]@,
                first_readme(entries, 0) is None,
                first_file(entries, 0) == first_file(entries, k as int),
            decreases self.entries@.len() - k,
        {
            if !self.entries[k].is_dir {
                return Some(self.entries[k].path.clone());
            }
            k = k + 1;
        }
        None
    }

    /// Replaces the browser's entries with those of the listing of the
    /// browsed directory, keeping the selection within the list.
    pub fn refresh_entries(&mut self, listing: Result<Vec<ListedItem>, String>)
        requires
            old(self).wf(),
        ensures
            final(self).wf(),
            lists_directory(final(self)@.entries, old(self)@.browser_dir, listing_items(listing)),
            final(self)@ == (ReaderModel {
                entries: final(self)@.entries,
                selected: selection_within(old(self)@.selected, final(self)@.entries.len() as int),
                status: listing_status(old(self)@, listing),
                ..old(self)@
            }),
    {
        let empty: Vec<ListedItem> = Vec::new();
        let entries = match &listing {
            Ok(items) => browser_entries(self.browser_dir.as_str(), items),
            Err(_) => {
                assert(listed_views(empty@) =~= Seq::<ListedModel>::empty());
                browser_entries(self.browser_dir.as_str(), &empty)
            },
        };
        if let Err(error) = &listing {
            let mut status = Self::owned("Cannot read ");
            status.append(self.browser_dir.as_str());
            status.append(": ");
            status.append(error.as_str());
            self.status = status;
        }
        self.entries = entries;
        let len = self.entries.len();
        let last = if len > 0 {
            len - 1
        } else {
            0
        };
        if self.selected > last {
            self.selected = last;
        }
        proof {
            self.lemma_view_entries();
        }
    }

    /// Browses `path`, a directory, with its listing.
    pub fn enter_directory(&mut self, path: String, listing: Result<Vec<ListedItem>, String>)
        requires
            old(self).wf(),
        ensures
            final(self).wf(),
            lists_directory(final(self)@.entries, path@, listing_items(listing)),
            final(self)@ == (ReaderModel {
                browser_dir: path@,
                entries: final(self)@.entries,
                selected: selection_within(old(self)@.selected, final(self)@.entries.len() as int),
                show_browser: true,
                focus: Focus::Browser,
                status: seq![],
                ..old(self)@
            }),
    {
        self.browser_dir = path;
        self.refresh_entries(listing);
        self.show_browser = true;
        self.focus = Focus::Browser;
        self.status = String::new();
    }

    /// The directory to list when `path` is opened as a document.
    pub fn document_directory(&self, path: &str) -> (r: String)
        ensures
            r@ == document_directory_of(self@, path@),
    {
        match path_parent(path) {
            Some(p) => p,
            None => string_of(&chars_of(self.browser_dir.as_str())),
        }
    }

    /// Shows `source`, loaded from `path` and drawn as `lines`, with the
    /// listing of `document_directory(path)`: the browser moves to the
    /// document's directory and selects it, and the view goes to the top.
    pub fn document_opened(
        &mut self,
        path: String,
        source: String,
        lines: Vec<String>,
        listing: Result<Vec<ListedItem>, String>,
    )
        requires
            old(self).wf(),
        ensures
            final(self).wf(),
            lists_directory(
                final(self)@.entries,
                document_directory_of(old(self)@, path@),
                listing_items(listing),
            ),
            final(self)@ == (ReaderModel {
                browser_dir: document_directory_of(old(self)@, path@),
                document: Some(DocumentModel { path: path@, source: source@, lines: line_texts(lines@) }),
                entries: final(self)@.entries,
                selected: match index_of_path(final(self)@.entries, path@, 0) {
                    Some(i) => i,
                    None => 0,
                },
                scroll: 0,
                last_match_line: None,
                status: seq![],
                focus: Focus::Document,
                ..old(self)@
            }),
    {
        let dir = self.document_directory(path.as_str());
        self.browser_dir = dir;
        let kept = string_of(&chars_of(path.as_str()));
        self.document = Some(OpenDocument { path: kept, source, lines });
        self.refresh_entries(listing);
        proof {
            self.lemma_view_entries();
        }
        let ghost entries = self@.entries;
        let mut k: usize = 0;
        let mut found: usize = 0;
        while k < self.entries.len()
            invariant_except_break
                found == 0,
                index_of_path(entries, path@, 0) == index_of_path(entries, path@, k as int),
            invariant
                k <= self.entries@.len(),
                entries.len() == self.entries@.len(),
                forall|i: int| 0 <= i < self.entries@.len() ==> #[trigger] entries[i] == self.entries@[i]@,
            ensures
                found < self.entries@.len() || found == 0,
                match index_of_path(entries, path@, 0) {
                    Some(i) => found == i,
                    None => found == 0,
                },
            decreases self.entries@.len() - k,
        {
            if crate::paths::same_path(self.entries[k].path.as_str(), path.as_str()) {
                found = k;
                break;
            }
            k = k + 1;
        }
        self.selected = found;
        self.scroll = 0;
        self.last_match_line = None;
        self.status = String::new();
        self.focus = Focus::Document;
    }

    /// Shows the freshly loaded `source` of the document at `path`, drawn
    /// as `lines`, from the top.
    pub fn document_reloaded(&mut self, path: String, source: String, lines: Vec<String>)
        requires
            old(self).wf(),
        ensures
            final(self).wf(),
            final(self)@ == (ReaderModel {
                document: Some(DocumentModel { path: path@, source: source@, lines: line_texts(lines@) }),
                scroll: 0,
                status: "Reloaded"@,
                ..old(self)@
            }),
    {
        self.document = Some(OpenDocument { path, source, lines });
        self.scroll = 0;
        self.status = Self::owned("Reloaded");
    }

    /// Reports that the context was copied.
    pub fn context_copied(&mut self)
        requires
            old(self).wf(),
        ensures
            final(self).wf(),
            final(self)@ == (ReaderModel { status: "Copied normalized LLM context"@, ..old(self)@ }),
    {
        self.status = Self::owned("Copied normalized LLM context");
    }

    /// Shows `message` (a failure to open, reload or copy) in the prompt.
    pub fn report(&mut self, message: String)
        requires
            old(self).wf(),
        ensures
            final(self).wf(),
            final(self)@ == (ReaderModel { status: message@, ..old(self)@ }),
    {
        self.status = message;
    }

    /// Lays the screen out and records where the browser and document
    /// panes went, for scrolling and mouse hits.
    pub fn lay_out(&mut self, screen: Area) -> (r: crate::layout::Panes)
        requires
            old(self).wf(),
            crate::layout::fits(screen),
        ensures
            final(self).wf(),
            crate::layout::panes_fit(r, screen, old(self)@.show_browser),
            final(self)@ == (ReaderModel {
                browser_area: if old(self)@.show_browser {
                    r.browser
                } else {
                    Area { x: 0, y: 0, width: 0, height: 0 }
                },
                document_area: r.document,
                ..old(self)@
            }),
    {
        let panes = crate::layout::screen_layout(screen, self.show_browser);
        self.set_areas(panes.browser, panes.document);
        panes
    }

    /// Records where the panes were drawn; without the browser its area is
    /// empty.
    pub fn set_areas(&mut self, browser: Area, document: Area)
        requires
            old(self).wf(),
        ensures
            final(self).wf(),
            final(self)@ == (ReaderModel {
                browser_area: if old(self)@.show_browser {
                    browser
                } else {
                    Area { x: 0, y: 0, width: 0, height: 0 }
                },
                document_area: document,
                ..old(self)@
            }),
    {
        self.browser_area = if self.show_browser {
            browser
        } else {
            Area::empty()
        };
        self.document_area = document;
    }

    /// The width the document's text is wrapped to.
    pub fn document_content_width(&self) -> (r: u16)
        ensures
            r == content_width(self@),
    {
        let w = self.document_area.width;
        let w = if w > 4 {
            w - 4
        } else {
            0
        };
        if w < 1 {
            1
        } else {
            w
        }
    }

    fn content_rows(&self) -> (r: usize)
        ensures
            r == content_height(self@),
    {
        let h = self.document_area.height;
        if h > 2 {
            (h - 2) as usize
        } else {
            0
        }
    }

    fn max_scroll_at(wrapped: usize, height: usize) -> (r: usize)
        ensures
            r == max_scroll(wrapped as int, height as int),
    {
        let h = if height < 1 {
            1
        } else {
            height
        };
        if wrapped > h {
            wrapped - h
        } else {
            0
        }
    }

    fn clamp(&mut self, wrapped: usize)
        ensures
            final(self)@ == clamp_scroll(old(self)@, wrapped as int),
    {
        if self.document.is_some() {
            let bottom = Self::max_scroll_at(wrapped, self.content_rows());
            if bottom < self.scroll {
                self.scroll = bottom;
            }
        }
    }

    /// Scrolls by `amount` lines; `wrapped` is the open document's line
    /// count at `document_content_width()`.
    fn scroll_by(&mut self, amount: isize, wrapped: usize)
        ensures
            final(self)@ == scroll_by_lines(old(self)@, amount as int, wrapped as int),
    {
        if amount < 0 {
            let back: usize = if amount == isize::MIN {
                (isize::MAX as usize) + 1
            } else {
                (-amount) as usize
            };
            self.scroll = if self.scroll > back {
                self.scroll - back
            } else {
                0
            };
        } else {
            let ahead = amount as usize;
            self.scroll = if self.scroll > usize::MAX - ahead {
                usize::MAX
            } else {
                self.scroll + ahead
            };
        }
        self.clamp(wrapped);
    }

    /// Scrolls by a page in the direction of `direction`'s sign.
    fn page_scroll(&mut self, direction: isize, wrapped: usize)
        ensures
            final(self)@ == scroll_by_page(old(self)@, direction as int, wrapped as int),
    {
        let h = self.document_area.height as usize;
        let amount = if h < 1 {
            1
        } else {
            h
        };
        if direction < 0 {
            self.scroll = if self.scroll > amount {
                self.scroll - amount
            } else {
                0
            };
        } else {
            self.scroll = if self.scroll > usize::MAX - amount {
                usize::MAX
            } else {
                self.scroll + amount
            };
        }
        self.clamp(wrapped);
    }

    /// Scrolls to the end of the document.
    fn scroll_to_bottom(&mut self, wrapped: usize)
        ensures
            final(self)@ == scroll_to_end(old(self)@, wrapped as int),
    {
        if self.document.is_some() {
            self.scroll = Self::max_scroll_at(wrapped, self.content_rows());
        }
    }

    /// The scroll position to draw with: never past the end of the open
    /// document in the pane, and within `u16`.
    pub fn effective_scroll(&self) -> (r: u16)
        ensures
            r == smaller(
                smaller(self@.scroll, max_scroll(wrapped_of(self@), content_height(self@))),
                u16::MAX as int,
            ),
    {
        let wrapped = self.wrapped();
        let bottom = Self::max_scroll_at(wrapped, self.content_rows());
        let s = if self.scroll < bottom {
            self.scroll
        } else {
            bottom
        };
        if s < 0xFFFF {
            s as u16
        } else {
            0xFFFF
        }
    }

    /// Moves the browser's selection by `amount` entries.
    pub fn move_selection(&mut self, amount: isize)
        ensures
            final(self)@ == move_selected(old(self)@, amount as int),
    {
        proof {
            self.lemma_view_entries();
        }
        if self.entries.len() == 0 {
            return;
        }
        if amount < 0 {
            let back: usize = if amount == isize::MIN {
                (isize::MAX as usize) + 1
            } else {
                (-amount) as usize
            };
            self.selected = if self.selected > back {
                self.selected - back
            } else {
                0
            };
        } else {
            let ahead = amount as usize;
            let moved = if self.selected > usize::MAX - ahead {
                usize::MAX
            } else {
                self.selected + ahead
            };
            let last = self.entries.len() - 1;
            self.selected = if moved < last {
                moved
            } else {
                last
            };
        }
    }

    /// Moves the selection or scrolls, whichever pane has focus.
    fn move_or_scroll(&mut self, amount: isize, wrapped: usize)
        ensures
            final(self)@ == move_or_scroll_by(old(self)@, amount as int, wrapped as int),
    {
        if self.focus == Focus::Browser {
            self.move_selection(amount);
        } else {
            self.scroll_by(amount, wrapped);
        }
    }

    /// Shows, hides or refocuses the file browser.
    pub fn toggle_browser(&mut self, focus_browser: bool)
        ensures
            final(self)@ == browser_toggled(old(self)@, focus_browser),
    {
        if self.show_browser && !focus_browser {
            self.show_browser = false;
            self.focus = Focus::Document;
        } else if self.show_browser {
            self.focus = match self.focus {
                Focus::Browser => Focus::Document,
                Focus::Document => Focus::Browser,
            };
        } else {
            self.show_browser = true;
            self.focus = Focus::Browser;
        }
    }

    /// Opens the prompt to collect a path or a search.
    pub fn begin_input(&mut self, mode: InputMode)
        ensures
            final(self)@ == input_begun(old(self)@, mode),
    {
        self.input_mode = Some(mode);
        self.input = String::new();
        self.input_cursor = 0;
        self.status = String::new();
    }

    /// Closes the prompt, dropping what was typed.
    pub fn cancel_input(&mut self)
        ensures
            final(self)@ == input_cancelled(old(self)@),
    {
        self.input_mode = None;
        self.input = String::new();
        self.input_cursor = 0;
    }

    /// The open document's line count at `document_content_width()`.
    fn wrapped(&self) -> (r: usize)
        ensures
            r == wrapped_of(self@),
    {
        match &self.document {
            Some(d) => count_wrapped_lines(&d.lines, self.document_content_width()),
            None => 0,
        }
    }

    /// Handles a key press.
    pub fn handle_key(&mut self, press: KeyPress) -> (r: Action)
        requires
            old(self).wf(),
        ensures
            final(self).wf(),
            (final(self)@, r@) == key_result(old(self)@, press, wrapped_of(old(self)@)),
    {
        let wrapped = self.wrapped();
        self.handle_key_with(press, wrapped)
    }

    /// Handles a mouse action.
    pub fn handle_mouse(&mut self, mouse: MouseAction)
        requires
            old(self).wf(),
        ensures
            final(self).wf(),
            final(self)@ == mouse_result(old(self)@, mouse, wrapped_of(old(self)@)),
    {
        let wrapped = self.wrapped();
        self.handle_mouse_with(mouse, wrapped)
    }

    /// Handles a key press, for a document of `wrapped` lines.
    pub fn handle_key_with(&mut self, press: KeyPress, wrapped: usize) -> (r: Action)
        requires
            old(self).wf(),
        ensures
            final(self).wf(),
            (final(self)@, r@) == key_result(old(self)@, press, wrapped as int),
    {
        if self.show_help {
            if press.key == Key::Esc || press.key == Key::Char('?') || press.key == Key::Char('q') {
                self.show_help = false;
            }
            return Action::Stay;
        }
        if self.input_mode.is_some() {
            return self.handle_input_key(press, wrapped);
        }
        if press.control && press.key == Key::Char('c') {
            return Action::Quit;
        }
        let k = press.key;
        if k == Key::Char('q') || k == Key::Esc {
            Action::Quit
        } else if k == Key::Char('?') {
            self.show_help = true;
            Action::Stay
        } else if k == Key::Tab {
            self.toggle_browser(true);
            Action::Stay
        } else if k == Key::Char('b') {
            self.toggle_browser(false);
            Action::Stay
        } else if k == Key::Char('o') {
            self.begin_input(InputMode::Open);
            Action::Stay
        } else if k == Key::Char('/') && self.document.is_some() {
            self.begin_input(InputMode::Search);
            Action::Stay
        } else if k == Key::Char('n') && self.search_query.is_some() {
            self.find_next_match(wrapped);
            Action::Stay
        } else if k == Key::Char('r') {
            match &self.document {
                Some(d) => Action::Reload(d.path.clone()),
                None => {
                    self.status = Self::owned("No document is open");
                    Action::Stay
                },
            }
        } else if k == Key::Char('c') {
            if self.document.is_some() {
                Action::CopyContext
            } else {
                self.status = Self::owned("Open a document before copying context");
                Action::Stay
            }
        } else if k == Key::Char('g') {
            self.scroll = 0;
            Action::Stay
        } else if k == Key::Char('G') {
            self.scroll_to_bottom(wrapped);
            Action::Stay
        } else if k == Key::Char('j') || k == Key::Down {
            self.move_or_scroll(1, wrapped);
            Action::Stay
        } else if k == Key::Char('k') || k == Key::Up {
            self.move_or_scroll(-1, wrapped);
            Action::Stay
        } else if k == Key::PageDown || k == Key::Char(' ') {
            self.page_scroll(1, wrapped);
            Action::Stay
        } else if k == Key::PageUp {
            self.page_scroll(-1, wrapped);
            Action::Stay
        } else if k == Key::Enter && self.focus == Focus::Browser {
            self.open_selected()
        } else {
            Action::Stay
        }
    }

    /// The path of the selected entry, to be opened.
    fn open_selected(&self) -> (r: Action)
        ensures
            r@ == selected_target(self@),
    {
        proof {
            self.lemma_view_entries();
        }
        if self.selected < self.entries.len() {
            let home = match &self.home {
                Some(h) => Some(h.as_str()),
                None => None,
            };
            Action::Open(
                resolve_path(
                    self.entries[self.selected].path.as_str(),
                    self.browser_dir.as_str(),
                    home,
                ),
            )
        } else {
            Action::Stay
        }
    }

    /// Handles a key while the prompt is open.
    fn handle_input_key(&mut self, press: KeyPress, wrapped: usize) -> (r: Action)
        requires
            old(self).wf(),
            old(self)@.input_mode is Some,
        ensures
            final(self).wf(),
            (final(self)@, r@) == input_key_result(old(self)@, press, wrapped as int),
    {
        let mode = self.input_mode;
        match press.key {
            Key::Esc => {
                self.cancel_input();
                Action::Stay
            },
            Key::Enter => {
                let value = trim_chars(&chars_of(self.input.as_str()));
                self.cancel_input();
                if value.len() == 0 {
                    return Action::Stay;
                }
                match mode {
                    Some(InputMode::Open) => {
                        let raw = string_of(&value);
                        let home = match &self.home {
                            Some(h) => Some(h.as_str()),
                            None => None,
                        };
                        Action::Open(resolve_path(raw.as_str(), self.browser_dir.as_str(), home))
                    },
                    _ => {
                        self.search_query = Some(string_of(&lowercase_chars(&value)));
                        self.last_match_line = None;
                        self.find_next_match(wrapped);
                        Action::Stay
                    },
                }
            },
            _ => {
                self.edit_input(press);
                Action::Stay
            },
        }
    }

    /// Applies an editing key to the prompt.
    fn edit_input(&mut self, press: KeyPress)
        requires
            old(self).wf(),
        ensures
            final(self).wf(),
            final(self)@ == input_edited(old(self)@, press),
    {
        broadcast use encode_utf8_valid_utf8, encode_utf8_decode_utf8;

        let ghost bytes = encode_utf8(self@.input);
        let cursor = self.input_cursor;
        match press.key {
            Key::Backspace => {
                if cursor > 0 {
                    let prev = previous_char_boundary(self.input.as_str(), cursor);
                    proof {
                        lemma_boundary_moves_unique(bytes, cursor as int, prev as int, boundary_before(bytes, cursor as int));
                    }
                    let (before, _) = self.input.as_str().split_at(prev);
                    let (_, after) = self.input.as_str().split_at(cursor);
                    let mut text = string_of(&chars_of(before));
                    text.append(after);
                    proof {
                        assert(before.spec_bytes() =~= bytes.take(prev as int));
                        assert(after.spec_bytes() =~= bytes.skip(cursor as int));
                        lemma_boundary_at_join(before@, after@);
                    }
                    self.input = text;
                    self.input_cursor = prev;
                }
            },
            Key::Delete => {
                let len = self.input.as_str().as_bytes().len();
                if cursor < len {
                    let next = next_char_boundary(self.input.as_str(), cursor);
                    proof {
                        lemma_boundary_moves_unique(bytes, cursor as int, next as int, boundary_after(bytes, cursor as int));
                    }
                    let (before, _) = self.input.as_str().split_at(cursor);
                    let (_, after) = self.input.as_str().split_at(next);
                    let mut text = string_of(&chars_of(before));
                    text.append(after);
                    proof {
                        assert(before.spec_bytes() =~= bytes.take(cursor as int));
                        assert(after.spec_bytes() =~= bytes.skip(next as int));
                        lemma_boundary_at_join(before@, after@);
                    }
                    self.input = text;
                }
            },
            Key::Left => {
                let prev = previous_char_boundary(self.input.as_str(), cursor);
                proof {
                    lemma_boundary_moves_unique(bytes, cursor as int, prev as int, boundary_before(bytes, cursor as int));
                }
                self.input_cursor = prev;
            },
            Key::Right => {
                let next = next_char_boundary(self.input.as_str(), cursor);
                proof {
                    lemma_boundary_moves_unique(bytes, cursor as int, next as int, boundary_after(bytes, cursor as int));
                }
                self.input_cursor = next;
            },
            Key::Home => {
                self.input_cursor = 0;
            },
            Key::End => {
                proof {
                    vstd::utf8::is_char_boundary_start_end_of_seq(bytes);
                }
                self.input_cursor = self.input.as_str().as_bytes().len();
            },
            Key::Char(ch) => {
                let len = self.input.as_str().as_bytes().len();
                let width = utf8_width(ch);
                if !press.control && len <= usize::MAX - width {
                    let (before, after) = self.input.as_str().split_at(cursor);
                    let mut text = string_of(&chars_of(before));
                    push_char(&mut text, ch);
                    let ghost head = text@;
                    text.append(after);
                    proof {
                        assert(before.spec_bytes() =~= bytes.take(cursor as int));
                        assert(after.spec_bytes() =~= bytes.skip(cursor as int));
                        lemma_encode_concat(before@, seq![ch]);
                        assert(encode_utf8(seq![ch]) =~= encode_scalar(ch as u32) + encode_utf8(seq![ch].drop_first()));
                        assert(seq![ch].drop_first() =~= Seq::<char>::empty());
                        assert(encode_utf8(Seq::<char>::empty()) =~= Seq::<u8>::empty());
                        assert(head =~= before@ + seq![ch]);
                        lemma_boundary_at_join(head, after@);
                    }
                    self.input = text;
                    self.input_cursor = cursor + width;
                }
            },
            _ => {},
        }
    }

    proof fn lemma_wrap_index(start: int, k: int, n: int)
        requires
            n > 0,
            start >= 0,
            0 <= k < n,
        ensures
            (start + k) % n == (if start % n + k < n {
                start % n + k
            } else {
                start % n + k - n
            }),
    {
        vstd::arithmetic::div_mod::lemma_add_mod_noop(start, k, n);
        vstd::arithmetic::div_mod::lemma_small_mod(k as nat, n as nat);
        let s = start % n;
        assert(0 <= s < n);
        if s + k < n {
            vstd::arithmetic::div_mod::lemma_small_mod((s + k) as nat, n as nat);
        } else {
            vstd::arithmetic::div_mod::lemma_mod_add_multiples_vanish(s + k - n, n);
            vstd::arithmetic::div_mod::lemma_small_mod((s + k - n) as nat, n as nat);
        }
    }

    /// Moves to the next line that holds the search query; `wrapped` is
    /// the open document's line count at `document_content_width()`.
    fn find_next_match(&mut self, wrapped: usize)
        requires
            old(self).wf(),
        ensures
            final(self).wf(),
            final(self)@ == search_step(old(self)@, wrapped as int),
    {
        let query = match &self.search_query {
            Some(q) => chars_of(q.as_str()),
            None => {
                return;
            },
        };
        let source = match &self.document {
            Some(d) => chars_of(d.source.as_str()),
            None => {
                return;
            },
        };
        let lines = lines_of(&source);
        let ghost all = text_lines(source@);
        let n = lines.len();
        if n == 0 {
            self.status = Self::owned("Document is empty");
            return;
        }
        let start: usize = match self.last_match_line {
            Some(l) => if l < usize::MAX {
                l + 1
            } else {
                usize::MAX
            },
            None => 0,
        };
        let s = start % n;
        let mut k: usize = 0;
        let mut found: Option<usize> = None;
        assert(all.len() == n);
        while k < n
            invariant_except_break
                found is None,
                first_match_from(all, query@, start as int, 0) == first_match_from(
                    all,
                    query@,
                    start as int,
                    k as int,
                ),
            invariant
                n == lines@.len(),
                n == all.len(),
                n > 0,
                s == start % n,
                k <= n,
                forall|i: int| 0 <= i < n ==> #[trigger] lines@[i]@ == all[i],
            ensures
                found matches Some(i) ==> i < n,
                found matches Some(i) ==> first_match_from(all, query@, start as int, 0) == Some(
                    i as int,
                ),
                found is None ==> first_match_from(all, query@, start as int, 0) is None,
            decreases n - k,
        {
            let i = if k < n - s {
                s + k
            } else {
                k - (n - s)
            };
            proof {
                Self::lemma_wrap_index(start as int, k as int, n as int);
            }
            if contains_chars(&lowercase_chars(&lines[i]), &query) {
                found = Some(i);
                break;
            }
            k = k + 1;
        }
        let bottom = Self::max_scroll_at(wrapped, self.content_rows());
        match found {
            Some(line) => {
                self.last_match_line = Some(line);
                self.scroll = if line < bottom {
                    line
                } else {
                    bottom
                };
                let mut status = Self::owned("Match on line ");
                status.append(decimal_string(line + 1).as_str());
                self.status = status;
            },
            None => {
                let mut status = Self::owned("No match for ");
                status.append(string_of(&query).as_str());
                self.status = status;
            },
        }
    }

    /// Handles a mouse action, for a document of `wrapped` lines.
    pub fn handle_mouse_with(&mut self, mouse: MouseAction, wrapped: usize)
        requires
            old(self).wf(),
        ensures
            final(self).wf(),
            final(self)@ == mouse_result(old(self)@, mouse, wrapped as int),
    {
        proof {
            self.lemma_view_entries();
        }
        let in_browser = self.show_browser && rect_contains(self.browser_area, mouse.column, mouse.row);
        match mouse.kind {
            MouseKind::ScrollUp => {
                if in_browser {
                    self.move_selection(-3);
                } else {
                    self.scroll_by(-3, wrapped);
                }
            },
            MouseKind::ScrollDown => {
                if in_browser {
                    self.move_selection(3);
                } else {
                    self.scroll_by(3, wrapped);
                }
            },
            MouseKind::LeftDown => {
                if in_browser {
                    let top = self.browser_area.y.saturating_add(1);
                    let index = if mouse.row > top {
                        (mouse.row - top) as usize
                    } else {
                        0
                    };
                    if index < self.entries.len() {
                        self.selected = index;
                        self.focus = Focus::Browser;
                    }
                } else if rect_contains(self.document_area, mouse.column, mouse.row) {
                    self.focus = Focus::Document;
                }
            },
            MouseKind::Other => {},
        }
    }

    /// The directory the reader started in.
    pub fn root_dir(&self) -> (r: &String)
        ensures
            r@ == self@.root_dir,
    {
        &self.root_dir
    }

    /// The directory the browser shows.
    pub fn browser_dir(&self) -> (r: &String)
        ensures
            r@ == self@.browser_dir,
    {
        &self.browser_dir
    }

    /// The browser's entries.
    pub fn entries(&self) -> (r: &Vec<FileEntry>)
        ensures
            entry_views(r@) == self@.entries,
    {
        &self.entries
    }

    /// The selected entry.
    pub fn selected(&self) -> (r: usize)
        ensures
            r == self@.selected,
    {
        self.selected
    }

    /// Whether entry `index` is the parent directory (drawn as `..`).
    pub fn entry_is_parent(&self, index: usize) -> (r: bool)
        ensures
            r == (0 <= index < self@.entries.len() && crate::listing::is_parent_entry(
                self@.entries[index as int],
                parent_path(self@.browser_dir),
            )),
    {
        proof {
            self.lemma_view_entries();
        }
        if index >= self.entries.len() {
            return false;
        }
        let entry = &self.entries[index];
        if !entry.is_dir {
            return false;
        }
        match path_parent(self.browser_dir.as_str()) {
            Some(parent) => crate::paths::same_path(parent.as_str(), entry.path.as_str()),
            None => false,
        }
    }

    /// The path of the open document.
    pub fn document_path(&self) -> (r: Option<&String>)
        ensures
            match self@.document {
                Some(d) => r matches Some(p) && p@ == d.path,
                None => r is None,
            },
    {
        match &self.document {
            Some(d) => Some(&d.path),
            None => None,
        }
    }

    /// Which pane has focus.
    pub fn focus(&self) -> (r: Focus)
        ensures
            r == self@.focus,
    {
        self.focus
    }

    /// Whether the file browser is shown.
    pub fn show_browser(&self) -> (r: bool)
        ensures
            r == self@.show_browser,
    {
        self.show_browser
    }

    /// Whether the help is shown.
    pub fn show_help(&self) -> (r: bool)
        ensures
            r == self@.show_help,
    {
        self.show_help
    }

    /// What the prompt is collecting, if it is open.
    pub fn input_mode(&self) -> (r: Option<InputMode>)
        ensures
            r == self@.input_mode,
    {
        self.input_mode
    }

    /// The status line.
    pub fn status(&self) -> (r: &String)
        ensures
            r@ == self@.status,
    {
        &self.status
    }

    /// The scroll position, in wrapped lines.
    pub fn scroll(&self) -> (r: usize)
        ensures
            r == self@.scroll,
    {
        self.scroll
    }

    /// Where the document pane was drawn.
    pub fn document_area(&self) -> (r: Area)
        ensures
            r == self@.document_area,
    {
        self.document_area
    }

    /// The prompt's text before and after the cursor.
    pub fn input_parts(&self) -> (r: (String, String))
        requires
            self.wf(),
        ensures
            r.0@ == decode_utf8(encode_utf8(self@.input).take(self@.input_cursor)),
            r.1@ == decode_utf8(encode_utf8(self@.input).skip(self@.input_cursor)),
            r.0@ + r.1@ == self@.input,
    {
        broadcast use encode_utf8_valid_utf8, encode_utf8_decode_utf8;

        let ghost bytes = encode_utf8(self@.input);
        let (before, after) = self.input.as_str().split_at(self.input_cursor);
        proof {
            assert(before.spec_bytes() =~= bytes.take(self@.input_cursor));
            assert(after.spec_bytes() =~= bytes.skip(self@.input_cursor));
            lemma_encode_concat(before@, after@);
            assert(bytes.take(self@.input_cursor) + bytes.skip(self@.input_cursor) =~= bytes);
            assert(encode_utf8(before@ + after@) == bytes);
            assert(decode_utf8(encode_utf8(before@ + after@)) == before@ + after@);
        }
        (string_of(&chars_of(before)), string_of(&chars_of(after)))
    }

    /// The header's title.
    pub fn title(&self) -> (r: String)
        ensures
            r@ == title_of(self@),
    {
        match &self.document {
            Some(d) => match crate::paths::path_file_name(d.path.as_str()) {
                Some(name) => name,
                None => Self::owned("document"),
            },
            None => Self::owned("Open a document"),
        }
    }

    /// The header's path line: the open document, else the browsed
    /// directory, as `display_path` shows it relative to the root.
    pub fn header_path(&self) -> (r: String)
        ensures
            r@ == crate::paths::shown_path(
                match self@.document {
                    Some(d) => d.path,
                    None => self@.browser_dir,
                },
                self@.root_dir,
                self@.home,
            ),
    {
        let home = match &self.home {
            Some(h) => Some(h.as_str()),
            None => None,
        };
        let path = match &self.document {
            Some(d) => d.path.as_str(),
            None => self.browser_dir.as_str(),
        };
        crate::paths::display_path(path, self.root_dir.as_str(), home)
    }

    /// The prompt's hint when it is closed.
    pub fn hint(&self) -> (r: String)
        ensures
            r@ == hint_of(self@),
    {
        proof {
            broadcast use encode_utf8_valid_utf8;
            if self@.status.len() == 0 {
                assert(encode_utf8(self@.status) =~= Seq::<u8>::empty());
            } else {
                assert(encode_utf8(self@.status).len() > 0);
            }
        }
        if self.status.as_str().as_bytes().len() == 0 {
            Self::owned("Ask about this document with / to search, or press o to open another file")
        } else {
            string_of(&chars_of(self.status.as_str()))
        }
    }
}


/// Typing a character in the prompt and then pressing Backspace gives
/// back the prompt as it was.
pub proof fn lemma_backspace_undoes_typing(v: ReaderModel, c: char)
    requires
        well_formed(v),
        encode_utf8(v.input).len() + encode_scalar(c as u32).len() <= usize::MAX,
    ensures
        input_edited(
            input_edited(v, KeyPress { key: Key::Char(c), control: false }),
            KeyPress { key: Key::Backspace, control: false },
        ) == v,
{
    broadcast use encode_utf8_valid_utf8, encode_utf8_decode_utf8, decode_utf8_encode_utf8;

    let bytes = encode_utf8(v.input);
    let cur = v.input_cursor;
    let w = encode_scalar(c as u32).len() as int;
    let typed = input_edited(v, KeyPress { key: Key::Char(c), control: false });
    let a = decode_utf8(bytes.take(cur));
    let b = decode_utf8(bytes.skip(cur));
    valid_utf8_split(bytes, cur);
    assert(encode_utf8(a) == bytes.take(cur));
    assert(encode_utf8(b) == bytes.skip(cur));
    assert(typed.input == a + seq![c] + b);
    assert(typed.input_cursor == cur + w);
    assert(0 <= cur <= bytes.len()) by {
        if cur > bytes.len() || cur < 0 {
            assert(!is_char_boundary(bytes, cur));
        }
    }
    assert(bytes.take(cur).len() == cur);
    let tail = seq![c] + b;
    assert(a + seq![c] + b =~= a + tail);
    let nb = encode_utf8(typed.input);
    lemma_encode_concat(a, tail);
    lemma_encode_concat(seq![c], b);
    assert(encode_utf8(seq![c]) =~= encode_scalar(c as u32) + encode_utf8(seq![c].drop_first()));
    assert(seq![c].drop_first() =~= Seq::<char>::empty());
    assert(encode_utf8(Seq::<char>::empty()) =~= Seq::<u8>::empty());
    assert(nb =~= bytes.take(cur) + encode_scalar(c as u32) + bytes.skip(cur));
    lemma_boundary_at_join(a, tail);
    assert(is_previous_boundary(nb, cur + w, cur)) by {
        assert forall|j: int| cur < j < cur + w implies !is_char_boundary(nb, j) by {
            lemma_boundary_shift(a, tail, j - cur);
            lemma_no_boundary_inside_char(c, b, j - cur);
        }
    }
    lemma_boundary_moves_unique(nb, cur + w, cur, boundary_before(nb, cur + w));
    let back = input_edited(typed, KeyPress { key: Key::Backspace, control: false });
    assert(nb.take(cur) =~= bytes.take(cur));
    assert(nb.skip(cur + w) =~= bytes.skip(cur));
    assert(back.input == a + b);
    decode_utf8_split(bytes, cur);
    assert(bytes.take(cur) =~= bytes.subrange(0, cur));
    assert(bytes.skip(cur) =~= bytes.subrange(cur, bytes.len() as int));
    assert(v.input == decode_utf8(bytes));
    assert(back.input =~= v.input);
    assert(back.input_cursor == cur);
}


/// With a document open, no scrolling command moves the view past the
/// point where the document's last line reaches the bottom of the pane.
pub proof fn lemma_scroll_stays_within_document(v: ReaderModel, amount: int, wrapped: int)
    requires
        v.document is Some,
    ensures
        scroll_by_lines(v, amount, wrapped).scroll <= max_scroll(wrapped, content_height(v)),
        scroll_by_page(v, amount, wrapped).scroll <= max_scroll(wrapped, content_height(v)),
        scroll_to_end(v, wrapped).scroll <= max_scroll(wrapped, content_height(v)),
{
}

/// While the browser is shown, pressing `Tab` twice gives focus back to
/// where it was and changes nothing else.
pub proof fn lemma_tab_twice_restores_focus(v: ReaderModel)
    requires
        v.show_browser,
    ensures
        browser_toggled(browser_toggled(v, true), true) == v,
{
}

/// A search wraps around the whole document: it finds a line whenever
/// some line holds the query, and what it finds holds the query.
pub proof fn lemma_search_covers_every_line(lines: Seq<Seq<char>>, query: Seq<char>, start: int)
    requires
        start >= 0,
        lines.len() > 0,
    ensures
        (exists|i: int| 0 <= i < lines.len() && line_matches(#[trigger] lines[i], query))
            <==> first_match_from(lines, query, start, 0) is Some,
        first_match_from(lines, query, start, 0) matches Some(i) ==> 0 <= i < lines.len()
            && line_matches(lines[i], query),
{
    lemma_first_match_from(lines, query, start, 0);
    if exists|i: int| 0 <= i < lines.len() && line_matches(#[trigger] lines[i], query) {
        let i = choose|i: int| 0 <= i < lines.len() && line_matches(#[trigger] lines[i], query);
        let n = lines.len() as int;
        let s = start % n;
        let k = if i >= s {
            i - s
        } else {
            i + n - s
        };
        Reader::lemma_wrap_index(start, k, n);
        assert((start + k) % n == i);
        assert(matches_after(lines, query, start, k));
    }
}

/// The line `j` lines after `start`, wrapping around, holds the query.
pub open spec fn matches_after(lines: Seq<Seq<char>>, query: Seq<char>, start: int, j: int) -> bool {
    line_matches(lines[(start + j) % (lines.len() as int)], query)
}

proof fn lemma_first_match_from(lines: Seq<Seq<char>>, query: Seq<char>, start: int, k: int)
    requires
        start >= 0,
        lines.len() > 0,
        0 <= k <= lines.len(),
    ensures
        first_match_from(lines, query, start, k) is None <==> (forall|j: int|
            k <= j < lines.len() ==> !#[trigger] matches_after(lines, query, start, j)),
        first_match_from(lines, query, start, k) matches Some(i) ==> 0 <= i < lines.len()
            && line_matches(lines[i], query),
    decreases lines.len() - k,
{
    if k < lines.len() {
        lemma_first_match_from(lines, query, start, k + 1);
        vstd::arithmetic::div_mod::lemma_mod_bound(start + k, lines.len() as int);
        assert(matches_after(lines, query, start, k) == line_matches(
            lines[(start + k) % (lines.len() as int)],
            query,
        ));
    }
}

/// What the browser lists for a directory it could not read: its parent
/// directory, when it has one other than itself, and nothing else.
pub open spec fn unreadable_listing(dir: Seq<char>) -> Seq<EntryModel> {
    match parent_path(dir) {
        Some(p) => if !paths_equal(p, dir) {
            seq![EntryModel { path: p, is_dir: true }]
        } else {
            seq![]
        },
        None => seq![],
    }
}

/// A directory whose listing failed is shown as its parent alone (or as
/// nothing, at the root).
pub proof fn lemma_unreadable_directory_lists_parent_only(
    entries: Seq<EntryModel>,
    dir: Seq<char>,
    listing: Result<Vec<ListedItem>, String>,
)
    requires
        listing is Err,
        lists_directory(entries, dir, listing_items(listing)),
    ensures
        entries == unreadable_listing(dir),
{
    broadcast use vstd::seq_lib::group_to_multiset_ensures;

    assert(listing_items(listing) =~= Seq::<ListedModel>::empty());
    assert(shown_items(Seq::<ListedModel>::empty()) =~= Seq::<EntryModel>::empty());
    let expected = unreadable_listing(dir);
    assert(browser_candidates(dir, listing_items(listing)) =~= expected);
    assert(entries.to_multiset() == expected.to_multiset());
    assert(entries.to_multiset().len() == entries.len());
    assert(expected.to_multiset().len() == expected.len());
    assert(entries.len() == expected.len());
    if expected.len() == 1 {
        let x = expected[0];
        assert(expected.contains(x));
        assert(entries.to_multiset().count(x) > 0);
        assert(entries.contains(x));
        assert(entries =~= expected);
    } else {
        assert(entries =~= expected);
    }
}

/// Scrolling keys move the open document's view, with neither help nor
/// the prompt shown, and the document pane `h` rows tall (text in
/// `h - 2` of them, at least one): a page is `h` rows (at least one);
/// the view never goes above the top nor below where the last of the
/// `wrapped` lines sits on the bottom text row. `PageUp` and `k`/`Up`
/// never move the view down, `PageDown`, space and `j`/`Down` never up;
/// `g` goes to the top and `G` to the bottom. Nothing else changes.
pub proof fn lemma_scroll_keys(v: ReaderModel, press: KeyPress, wrapped: int)
    requires
        !v.show_help,
        v.input_mode is None,
        v.document is Some,
        0 <= v.scroll <= usize::MAX,
        0 <= wrapped <= usize::MAX,
    ensures
        ({
            let h = v.document_area.height as int;
            let page = if h < 1 { 1 } else { h };
            let rows = if h - 2 < 1 { 1 } else { h - 2 };
            let bottom = if wrapped > rows { wrapped - rows } else { 0 };
            let res = key_result(v, press, wrapped);
            let up_page = if v.scroll > page { v.scroll - page } else { 0 };
            let down_page = v.scroll + page;
            let up_line = if v.scroll > 1 { v.scroll - 1 } else { 0 };
            let down_line = v.scroll + 1;
            &&& press.key == Key::PageUp ==> res.1 == ActionModel::Stay && res.0 == (ReaderModel {
                scroll: if up_page < bottom { up_page } else { bottom },
                ..v
            }) && res.0.scroll <= v.scroll
            &&& (press.key == Key::PageDown || press.key == Key::Char(' ')) ==> res.1
                == ActionModel::Stay && res.0 == (ReaderModel {
                scroll: if down_page < bottom { down_page } else { bottom },
                ..v
            }) && (v.scroll <= bottom ==> res.0.scroll >= v.scroll)
            &&& v.focus == Focus::Document && (press.key == Key::Char('k') || press.key == Key::Up)
                ==> res.1 == ActionModel::Stay && res.0 == (ReaderModel {
                scroll: if up_line < bottom { up_line } else { bottom },
                ..v
            }) && res.0.scroll <= v.scroll
            &&& v.focus == Focus::Document && (press.key == Key::Char('j') || press.key == Key::Down)
                ==> res.1 == ActionModel::Stay && res.0 == (ReaderModel {
                scroll: if down_line < bottom { down_line } else { bottom },
                ..v
            }) && (v.scroll <= bottom ==> res.0.scroll >= v.scroll)
            &&& press.key == Key::Char('g') ==> res.1 == ActionModel::Stay && res.0 == (ReaderModel {
                scroll: 0,
                ..v
            })
            &&& press.key == Key::Char('G') ==> res.1 == ActionModel::Stay && res.0 == (ReaderModel {
                scroll: bottom,
                ..v
            })
        }),
{
}

/// The mouse wheel outside the browser scrolls the open document three
/// lines, up or down, within the same bounds as the keys.
pub proof fn lemma_wheel_scrolls(v: ReaderModel, mouse: MouseAction, wrapped: int)
    requires
        v.document is Some,
        !(v.show_browser && in_area(v.browser_area, mouse.column, mouse.row)),
        0 <= v.scroll <= usize::MAX,
        0 <= wrapped <= usize::MAX,
    ensures
        ({
            let h = v.document_area.height as int;
            let rows = if h - 2 < 1 { 1 } else { h - 2 };
            let bottom = if wrapped > rows { wrapped - rows } else { 0 };
            let r = mouse_result(v, mouse, wrapped);
            let up = if v.scroll > 3 { v.scroll - 3 } else { 0 };
            let down = v.scroll + 3;
            &&& mouse.kind == MouseKind::ScrollUp ==> r == (ReaderModel {
                scroll: if up < bottom { up } else { bottom },
                ..v
            }) && r.scroll <= v.scroll
            &&& mouse.kind == MouseKind::ScrollDown ==> r == (ReaderModel {
                scroll: if down < bottom { down } else { bottom },
                ..v
            })
        }),
{
}

/// Moving the selection of a non-empty list by `amount` entries lands on
/// the entry that far away, stopped at the first and the last entry: up
/// (a negative amount) never moves it down, down never up.
pub proof fn lemma_selection_moves(v: ReaderModel, amount: int)
    requires
        0 < v.entries.len() <= usize::MAX,
        0 <= v.selected < v.entries.len(),
    ensures
        ({
            let last = v.entries.len() - 1;
            let target = v.selected + amount;
            let r = move_selected(v, amount);
            &&& r == (ReaderModel {
                selected: if target < 0 { 0 } else if target > last { last } else { target },
                ..v
            })
            &&& amount <= 0 ==> r.selected <= v.selected
            &&& amount >= 0 ==> r.selected >= v.selected
        }),
{
}

/// Down one entry and back up one restores the selection (from any entry
/// but the last), and so does up one and back down (from any but the
/// first).
pub proof fn lemma_selection_round_trip(v: ReaderModel)
    requires
        0 < v.entries.len() <= usize::MAX,
        0 <= v.selected < v.entries.len(),
    ensures
        v.selected < v.entries.len() - 1 ==> move_selected(move_selected(v, 1), -1) == v,
        v.selected > 0 ==> move_selected(move_selected(v, -1), 1) == v,
{
    lemma_selection_moves(v, 1);
    lemma_selection_moves(v, -1);
    if v.selected < v.entries.len() - 1 {
        lemma_selection_moves(move_selected(v, 1), -1);
    }
    if v.selected > 0 {
        lemma_selection_moves(move_selected(v, -1), 1);
    }
}

/// With the browser focused, `k`/`Up` selects the entry above (none above
/// the first) and `j`/`Down` the one below (none below the last); the
/// wheel over the browser moves the selection three entries.
pub proof fn lemma_selection_keys(v: ReaderModel, press: KeyPress, mouse: MouseAction, wrapped: int)
    requires
        !v.show_help,
        v.input_mode is None,
        v.focus == Focus::Browser,
        0 < v.entries.len() <= usize::MAX,
        0 <= v.selected < v.entries.len(),
    ensures
        ({
            let last = v.entries.len() - 1;
            let res = key_result(v, press, wrapped);
            &&& (press.key == Key::Char('k') || press.key == Key::Up) ==> res.1 == ActionModel::Stay
                && res.0 == (ReaderModel {
                selected: if v.selected > 0 { v.selected - 1 } else { 0 },
                ..v
            })
            &&& (press.key == Key::Char('j') || press.key == Key::Down) ==> res.1
                == ActionModel::Stay && res.0 == (ReaderModel {
                selected: if v.selected < last { v.selected + 1 } else { last },
                ..v
            })
        }),
        v.show_browser && in_area(v.browser_area, mouse.column, mouse.row) ==> {
            let last = v.entries.len() - 1;
            let r = mouse_result(v, mouse, wrapped);
            &&& mouse.kind == MouseKind::ScrollUp ==> r == (ReaderModel {
                selected: if v.selected > 3 { v.selected - 3 } else { 0 },
                ..v
            })
            &&& mouse.kind == MouseKind::ScrollDown ==> r == (ReaderModel {
                selected: if v.selected + 3 < last { v.selected + 3 } else { last },
                ..v
            })
        },
{
}

/// `n` moves to the next line that holds the search query, wrapping
/// around: whenever some line of the open document holds it, the line
/// found holds it, no line between the previous match and it does, and
/// the view scrolls to it (as far as the document can scroll), so the
/// found line is on screen.
pub proof fn lemma_next_match_scrolls_to_it(v: ReaderModel, press: KeyPress, wrapped: int, start: int)
    requires
        start == (match v.last_match_line {
            Some(l) => l + 1,
            None => 0,
        }),
        !v.show_help,
        v.input_mode is None,
        press.key == Key::Char('n'),
        v.search_query is Some,
        v.document is Some,
        text_lines(v.document->0.source).len() > 0,
        exists|j: int|
            0 <= j < text_lines(v.document->0.source).len() && contains_text(ascii_lowercase(#[trigger] text_lines(v.document->0.source)[j]), v.search_query->0),
        v.last_match_line matches Some(l) ==> 0 <= l < usize::MAX,
        0 <= wrapped,
    ensures
        ({
            let lines = text_lines(v.document->0.source);
            let n = lines.len() as int;
            let q = v.search_query->0;
            let h = v.document_area.height as int;
            let rows = if h - 2 < 1 { 1 } else { h - 2 };
            let bottom = if wrapped > rows { wrapped - rows } else { 0 };
            let res = key_result(v, press, wrapped);
            &&& res.1 == ActionModel::Stay
            &&& res.0.last_match_line matches Some(i) && 0 <= i < n && contains_text(ascii_lowercase(lines[i]), q)
                && res.0.scroll == (if i < bottom { i } else { bottom })
                && (exists|k: int| 0 <= k < n && (start + k) % n == i && #[trigger] no_match_within(
                lines,
                q,
                start,
                k,
            ))
            &&& res.0.status == "Match on line "@ + decimal((res.0.last_match_line->0 + 1) as nat)
        }),
{
    let lines = text_lines(v.document->0.source);
    let q = v.search_query->0;
    lemma_search_covers_every_line(lines, q, start);
    assert(no_match_within(lines, q, start, 0));
    lemma_first_match_found(lines, q, start, 0);
    assert(key_result(v, press, wrapped) == (search_step(v, wrapped), ActionModel::Stay));
}

/// A search submitted from the prompt looks from the top: whenever some
/// line holds the (trimmed, lowered) query, the first such line is found
/// and the view scrolls to it (as far as the document can scroll).
pub proof fn lemma_search_scrolls_to_first_match(v: ReaderModel, wrapped: int)
    requires
        !v.show_help,
        v.input_mode == Some(InputMode::Search),
        trim(v.input).len() > 0,
        v.document is Some,
        exists|j: int|
            0 <= j < text_lines(v.document->0.source).len() && contains_text(ascii_lowercase(#[trigger] text_lines(v.document->0.source)[j]), ascii_lowercase(trim(v.input))),
        0 <= wrapped,
    ensures
        ({
            let lines = text_lines(v.document->0.source);
            let q = ascii_lowercase(trim(v.input));
            let h = v.document_area.height as int;
            let rows = if h - 2 < 1 { 1 } else { h - 2 };
            let bottom = if wrapped > rows { wrapped - rows } else { 0 };
            let res = key_result(v, KeyPress { key: Key::Enter, control: false }, wrapped);
            &&& res.1 == ActionModel::Stay
            &&& res.0.input_mode is None
            &&& res.0.search_query == Some(q)
            &&& res.0.last_match_line matches Some(i) && 0 <= i < lines.len() && contains_text(
                ascii_lowercase(lines[i]),
                q,
            ) && res.0.scroll == (if i < bottom { i } else { bottom }) && forall|j: int|
                0 <= j < i ==> !contains_text(ascii_lowercase(#[trigger] lines[j]), q)
            &&& res.0.status == "Match on line "@ + decimal((res.0.last_match_line->0 + 1) as nat)
        }),
{
    let lines = text_lines(v.document->0.source);
    let q = ascii_lowercase(trim(v.input));
    lemma_search_covers_every_line(lines, q, 0);
    lemma_first_match_found(lines, q, 0, 0);
    let i = first_match_from(lines, q, 0, 0)->0;
    let k = choose|k: int|
        0 <= k < lines.len() && (0 + k) % (lines.len() as int) == i && #[trigger] no_match_within(
            lines,
            q,
            0,
            k,
        );
    vstd::arithmetic::div_mod::lemma_small_mod(k as nat, lines.len());
    assert forall|j: int| 0 <= j < i implies !line_matches(#[trigger] lines[j], q) by {
        vstd::arithmetic::div_mod::lemma_small_mod(j as nat, lines.len());
        assert(lines[(0 + j) % (lines.len() as int)] == lines[j]);
    }
}

/// None of the `k` lines from `start` on (wrapping around) holds `query`.
pub open spec fn no_match_within(lines: Seq<Seq<char>>, query: Seq<char>, start: int, k: int) -> bool {
    forall|j: int|
        0 <= j < k ==> !contains_text(
            ascii_lowercase(#[trigger] lines[(start + j) % (lines.len() as int)]),
            query,
        )
}

/// Where the search from `start + k` lands: `k2` steps on, with no match
/// on the way.
proof fn lemma_first_match_found(lines: Seq<Seq<char>>, q: Seq<char>, start: int, k: int)
    requires
        start >= 0,
        lines.len() > 0,
        0 <= k <= lines.len(),
        no_match_within(lines, q, start, k),
    ensures
        first_match_from(lines, q, start, k) matches Some(i) ==> exists|k2: int|
            0 <= k2 < lines.len() && (start + k2) % (lines.len() as int) == i
                && #[trigger] no_match_within(lines, q, start, k2),
    decreases lines.len() - k,
{
    if k < lines.len() {
        let i = (start + k) % (lines.len() as int);
        if !line_matches(lines[i], q) {
            assert(no_match_within(lines, q, start, k + 1));
            lemma_first_match_found(lines, q, start, k + 1);
        } else {
            assert(no_match_within(lines, q, start, k));
        }
    }
}

/// A left click in the browser selects the entry drawn on the clicked row
/// (the list starts on the row below the browser's top edge) and focuses
/// the browser; a click below the last entry changes nothing. A click in
/// the document pane (outside the browser) focuses the document and
/// changes nothing else.
pub proof fn lemma_click_selects(v: ReaderModel, mouse: MouseAction, wrapped: int)
    requires
        mouse.kind == MouseKind::LeftDown,
        v.browser_area.y < u16::MAX,
    ensures
        ({
            let in_browser = v.show_browser && in_area(v.browser_area, mouse.column, mouse.row);
            let first_row = v.browser_area.y + 1;
            let index = if mouse.row > first_row { mouse.row - first_row } else { 0 };
            let r = mouse_result(v, mouse, wrapped);
            &&& in_browser && index < v.entries.len() ==> r == (ReaderModel {
                selected: index,
                focus: Focus::Browser,
                ..v
            })
            &&& in_browser && index >= v.entries.len() ==> r == v
            &&& !in_browser && in_area(v.document_area, mouse.column, mouse.row) ==> r == (
            ReaderModel { focus: Focus::Document, ..v })
        }),
{
}

/// A search for text that no line of the open document holds (ignoring
/// ASCII case) leaves the view and the last match where they were and
/// says so.
pub proof fn lemma_search_miss(v: ReaderModel, press: KeyPress, wrapped: int)
    requires
        !v.show_help,
        v.input_mode is None,
        press.key == Key::Char('n'),
        v.search_query is Some,
        v.document is Some,
        text_lines(v.document->0.source).len() > 0,
        forall|j: int|
            0 <= j < text_lines(v.document->0.source).len() ==> !contains_text(
                ascii_lowercase(#[trigger] text_lines(v.document->0.source)[j]),
                v.search_query->0,
            ),
        v.last_match_line matches Some(l) ==> 0 <= l,
    ensures
        key_result(v, press, wrapped) == (
            ReaderModel { status: "No match for "@ + v.search_query->0, ..v },
            ActionModel::Stay,
        ),
{
    let lines = text_lines(v.document->0.source);
    let start = match v.last_match_line {
        Some(l) => plus(l, 1),
        None => 0,
    };
    lemma_search_covers_every_line(lines, v.search_query->0, start);
}

/// `Enter` in the focused browser asks to open the selected entry's path
/// (resolved against the browsed directory) and changes nothing.
pub proof fn lemma_enter_opens_selection(v: ReaderModel, wrapped: int)
    requires
        !v.show_help,
        v.input_mode is None,
        v.focus == Focus::Browser,
        0 <= v.selected < v.entries.len(),
    ensures
        key_result(v, KeyPress { key: Key::Enter, control: false }, wrapped) == (
            v,
            ActionModel::Open(resolved_path(v.entries[v.selected].path, v.browser_dir, v.home)),
        ),
{
}

} // verus!





