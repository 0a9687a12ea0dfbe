//! Where the reader's panes go on the screen. The rectangles are solved by
//! ratatui's layout engine, called through the trusted item below; the
//! arrangement of the panes is this library's own. The solver is not named
//! as a function of its input (it walks randomly seeded hash maps); what
//! its constraints fix of every optimal answer is stated instead: each
//! part lies in the area, the parts follow each other in order, and
//! percentages are met to the nearest cell.

use vstd::prelude::*;
use crate::reader::Area;
use ratatui::layout::{Constraint, Direction, Layout, Rect};

verus! {

/// How much room a pane asks for along the direction of a split.
#[derive(Clone, Copy, Debug, PartialEq, Eq, Structural)]
pub enum Sizing {
    /// Exactly this many cells.
    Length(u16),
    /// At least this many cells.
    Min(u16),
    /// This percentage of the room.
    Percentage(u16),
}

/// `area` lies in the `u16` plane: its right and bottom edges are cells
/// that a `u16` can number.
pub open spec fn fits(area: Area) -> bool {
    &&& area.x + area.width <= u16::MAX
    &&& area.y + area.height <= u16::MAX
}

/// Whether `area` lies in the `u16` plane.
pub fn area_fits(area: Area) -> (r: bool)
    ensures
        r == fits(area),
{
    area.width <= u16::MAX - area.x && area.height <= u16::MAX - area.y
}

/// `r` lies in `area`.
pub open spec fn within(r: Area, area: Area) -> bool {
    &&& area.x <= r.x
    &&& r.x + r.width <= area.x + area.width
    &&& area.y <= r.y
    &&& r.y + r.height <= area.y + area.height
}

/// `r` is one of the parts of `area` split along the given direction: it
/// spans `area` across that direction and lies in it along it.
pub open spec fn part_of(r: Area, area: Area, vertical: bool) -> bool {
    &&& within(r, area)
    &&& vertical ==> r.x == area.x && r.width == area.width
    &&& !vertical ==> r.y == area.y && r.height == area.height
}

/// Where `a` starts along the direction of a split (rows when vertical).
pub open spec fn start_along(a: Area, vertical: bool) -> int {
    if vertical {
        a.y as int
    } else {
        a.x as int
    }
}

/// How far `a` reaches along the direction of a split.
pub open spec fn size_along(a: Area, vertical: bool) -> int {
    if vertical {
        a.height as int
    } else {
        a.width as int
    }
}

/// Where `a` ends along the direction of a split.
pub open spec fn end_along(a: Area, vertical: bool) -> int {
    start_along(a, vertical) + size_along(a, vertical)
}

/// The parts follow each other along the split: the first starts where
/// `area` starts, and each of the others where the one before it ends.
pub open spec fn in_sequence(parts: Seq<Area>, area: Area, vertical: bool) -> bool {
    &&& parts.len() > 0 ==> start_along(parts[0], vertical) == start_along(area, vertical)
    &&& forall|i: int|
        0 <= i < parts.len() - 1 ==> #[trigger] end_along(parts[i], vertical) == start_along(
            parts[i + 1],
            vertical,
        )
}

/// The percentage a sizing asks for (none unless it is a percentage).
pub open spec fn percent_of(size: Sizing) -> int {
    match size {
        Sizing::Percentage(p) => p as int,
        _ => 0,
    }
}

/// Every sizing is a percentage.
pub open spec fn all_percentages(sizes: Seq<Sizing>) -> bool {
    forall|i: int| 0 <= i < sizes.len() ==> #[trigger] sizes[i] is Percentage
}

/// The percentages of the first `n` sizings added up.
pub open spec fn percent_before(sizes: Seq<Sizing>, n: int) -> int
    decreases n,
{
    if n <= 0 || n > sizes.len() {
        0
    } else {
        percent_before(sizes, n - 1) + percent_of(sizes[n - 1])
    }
}

/// The offset, in cells, at which `percent` percent of `size` cells ends,
/// rounded to the nearest cell (halves up).
pub open spec fn percent_edge(size: int, percent: int) -> int {
    (size * percent + 50) / 100
}

/// Each part runs from the rounded edge of the percentages before it to
/// the rounded edge of those up to and including its own.
pub open spec fn percent_parts(parts: Seq<Area>, area: Area, vertical: bool, sizes: Seq<Sizing>) -> bool {
    forall|i: int|
        0 <= i < parts.len() ==> {
            &&& start_along(#[trigger] parts[i], vertical) == start_along(area, vertical)
                + percent_edge(size_along(area, vertical), percent_before(sizes, i))
            &&& end_along(parts[i], vertical) == start_along(area, vertical) + percent_edge(
                size_along(area, vertical),
                percent_before(sizes, i + 1),
            )
        }
}

/// Trusted: `ratatui::layout::Layout::split` with the given direction and
/// constraints, and the layout's defaults (no margin, no spacing, the
/// `Start` flex). As `try_split`, `configure_*` and `changes_to_rects`
/// show:
/// - there is one rectangle per constraint; each spans the area across
///   the split (its cross position and size are copied from the area),
///   and along it the required constraints keep every edge between the
///   area's start and end (the area lies in the `u16` plane, so no edge
///   is clipped);
/// - the spacer before the first part is empty at nearly required
///   strength and the spacers between parts are empty at a tenth of it,
///   above all the size constraints together; every optimal solution can
///   move parts to close a gap or shrink them to undo an overlap at a
///   lower cost, so the parts follow each other from the area's start.
///   This is stated for at most four parts, where the solved edges are
///   whole hundredths and round alike (the last part need not reach the
///   area's end: the last spacer takes what is left);
/// - with percentages alone, adding up to at most 100, every percentage
///   is met exactly (its strength outweighs all others), so each edge is
///   the percentage of the area's size before it, rounded to the nearest
///   cell, halves up (`(x / 100.0).round()` on whole hundredths).
#[verifier::external_body]
fn split_area(area: Area, vertical: bool, sizes: &Vec<Sizing>) -> (r: Vec<Area>)
    requires
        fits(area),
    ensures
        r@.len() == sizes@.len(),
        forall|i: int| 0 <= i < r@.len() ==> part_of(#[trigger] r@[i], area, vertical),
        sizes@.len() <= 4 ==> in_sequence(r@, area, vertical),
        all_percentages(sizes@) && percent_before(sizes@, sizes@.len() as int) <= 100
            ==> percent_parts(r@, area, vertical, sizes@),
{
    let direction = if vertical { Direction::Vertical } else { Direction::Horizontal };
    let constraints = sizes.iter().map(|size| match *size {
        Sizing::Length(n) => Constraint::Length(n),
        Sizing::Min(n) => Constraint::Min(n),
        Sizing::Percentage(n) => Constraint::Percentage(n),
    });
    let rect = Rect { x: area.x, y: area.y, width: area.width, height: area.height };
    let rects = Layout::default().direction(direction).constraints(constraints).split(rect);
    rects.iter().map(|r| Area { x: r.x, y: r.y, width: r.width, height: r.height }).collect()
}

/// The screen's panes.
#[derive(Clone, Copy, Debug, PartialEq, Eq, Structural)]
pub struct Panes {
    pub header: Area,
    pub browser: Area,
    pub divider: Area,
    pub document: Area,
    pub prompt: Area,
    pub footer: Area,
    pub help: Area,
}

/// The panes laid out on `screen`: the header, prompt and footer span the
/// screen's width and every pane lies on it; from the top of the screen
/// come the header, the document, the prompt and the footer, each
/// starting where the one above ends; with the browser, the browser, the
/// divider and the document follow each other from the screen's left
/// edge at the same height; without it, the document starts at the left
/// edge and the browser and divider are empty. Help lies on the screen.
pub open spec fn panes_fit(p: Panes, screen: Area, show_browser: bool) -> bool {
    let empty = Area { x: 0, y: 0, width: 0, height: 0 };
    &&& part_of(p.header, screen, true)
    &&& part_of(p.prompt, screen, true)
    &&& part_of(p.footer, screen, true)
    &&& within(p.document, screen)
    &&& within(p.help, screen)
    &&& p.header.y == screen.y
    &&& p.header.y + p.header.height == p.document.y
    &&& p.document.y + p.document.height == p.prompt.y
    &&& p.prompt.y + p.prompt.height == p.footer.y
    &&& if show_browser {
        &&& within(p.browser, screen)
        &&& within(p.divider, screen)
        &&& p.browser.y == p.document.y && p.browser.height == p.document.height
        &&& p.divider.y == p.document.y && p.divider.height == p.document.height
        &&& p.browser.x == screen.x
        &&& p.browser.x + p.browser.width == p.divider.x
        &&& p.divider.x + p.divider.width == p.document.x
    } else {
        &&& p.document.x == screen.x
        &&& p.browser == empty
        &&& p.divider == empty
    }
}

proof fn lemma_within_transitive(a: Area, b: Area, c: Area)
    requires
        within(a, b),
        within(b, c),
    ensures
        within(a, c),
{
}

/// The three sizings of a centered band: margins of half the rest around
/// `percent`.
fn centered_sizing(percent: u16) -> (r: Vec<Sizing>)
    requires
        percent <= 100,
    ensures
        r@ == seq![
            Sizing::Percentage(((100 - percent) / 2) as u16),
            Sizing::Percentage(percent),
            Sizing::Percentage(((100 - percent) / 2) as u16),
        ],
{
    let margin = (100 - percent) / 2;
    vec![Sizing::Percentage(margin), Sizing::Percentage(percent), Sizing::Percentage(margin)]
}

proof fn lemma_centered_percentages(percent: u16)
    requires
        percent <= 100,
    ensures
        ({
            let m = ((100 - percent) / 2) as u16;
            let sizes = seq![Sizing::Percentage(m), Sizing::Percentage(percent), Sizing::Percentage(m)];
            &&& all_percentages(sizes)
            &&& percent_before(sizes, 0) == 0
            &&& percent_before(sizes, 1) == m
            &&& percent_before(sizes, 2) == m + percent
            &&& percent_before(sizes, 3) == 2 * m + percent
            &&& 2 * m + percent <= 100
        }),
{
    let m = ((100 - percent) / 2) as u16;
    let sizes = seq![Sizing::Percentage(m), Sizing::Percentage(percent), Sizing::Percentage(m)];
    reveal_with_fuel(percent_before, 4);
    assert(sizes[0] is Percentage && sizes[1] is Percentage && sizes[2] is Percentage);
}

/// Where a band of `percent` percent of `size` cells, centered with
/// margins of half the rest, starts and how long it is.
pub open spec fn centered_band(size: int, percent: int) -> (int, int) {
    let m = (100 - percent) / 2;
    (percent_edge(size, m), percent_edge(size, m + percent) - percent_edge(size, m))
}

/// The rectangle `centered_rect` gives: the middle band of the rows, and
/// of that the middle band of the columns.
pub open spec fn centered_area(percent_x: int, percent_y: int, area: Area) -> Area {
    let (dx, w) = centered_band(area.width as int, percent_x);
    let (dy, h) = centered_band(area.height as int, percent_y);
    Area { x: (area.x + dx) as u16, y: (area.y + dy) as u16, width: w as u16, height: h as u16 }
}

/// A rectangle of the given percentages of `area`, in its middle: the
/// middle of three rows (margins of half the rest each), and of that the
/// middle of three columns.
pub fn centered_rect(percent_x: u16, percent_y: u16, area: Area) -> (r: Area)
    requires
        percent_x <= 100,
        percent_y <= 100,
        fits(area),
    ensures
        within(r, area),
        r == centered_area(percent_x as int, percent_y as int, area),
{
    let row_sizes = centered_sizing(percent_y);
    proof {
        lemma_centered_percentages(percent_y);
    }
    let rows = split_area(area, true, &row_sizes);
    assert(part_of(rows@[1], area, true));
    let column_sizes = centered_sizing(percent_x);
    proof {
        lemma_centered_percentages(percent_x);
    }
    let columns = split_area(rows[1], false, &column_sizes);
    assert(part_of(columns@[1], rows@[1], false));
    proof {
        lemma_within_transitive(columns@[1], rows@[1], area);
    }
    columns[1]
}

/// Lays the panes out on `screen`: a three-line header, the body, a
/// three-line prompt and a one-line footer; the body holds a 28-column
/// browser, a one-column divider and the document when the browser is
/// shown, else just the document; help is a centered 72% by 66% popup.
pub fn screen_layout(screen: Area, show_browser: bool) -> (r: Panes)
    requires
        fits(screen),
    ensures
        panes_fit(r, screen, show_browser),
{
    let row_sizes = vec![Sizing::Length(3), Sizing::Min(1), Sizing::Length(3), Sizing::Length(1)];
    let rows = split_area(screen, true, &row_sizes);
    let help = centered_rect(72, 66, screen);
    let body = rows[1];
    assert(part_of(rows@[0], screen, true) && part_of(rows@[1], screen, true) && part_of(rows@[2], screen, true) && part_of(rows@[3], screen, true));
    assert(end_along(rows@[0], true) == start_along(rows@[1], true));
    assert(end_along(rows@[1], true) == start_along(rows@[2], true));
    assert(end_along(rows@[2], true) == start_along(rows@[3], true));
    if show_browser {
        let column_sizes = vec![Sizing::Length(28), Sizing::Length(1), Sizing::Min(1)];
        let columns = split_area(body, false, &column_sizes);
        assert(part_of(columns@[0], body, false) && part_of(columns@[1], body, false) && part_of(columns@[2], body, false));
        assert(end_along(columns@[0], false) == start_along(columns@[1], false));
        assert(end_along(columns@[1], false) == start_along(columns@[2], false));
        proof {
            lemma_within_transitive(columns@[0], body, screen);
            lemma_within_transitive(columns@[1], body, screen);
            lemma_within_transitive(columns@[2], body, screen);
        }
        Panes {
            header: rows[0],
            browser: columns[0],
            divider: columns[1],
            document: columns[2],
            prompt: rows[2],
            footer: rows[3],
            help,
        }
    } else {
        let column_sizes = vec![Sizing::Min(1)];
        let columns = split_area(body, false, &column_sizes);
        assert(part_of(columns@[0], body, false));
        proof {
            lemma_within_transitive(columns@[0], body, screen);
        }
        Panes {
            header: rows[0],
            browser: Area::empty(),
            divider: Area::empty(),
            document: columns[0],
            prompt: rows[2],
            footer: rows[3],
            help,
        }
    }
}

/// How many lines ratatui's `Paragraph` takes for the given lines, wrapped
/// by words (without trimming) to `width` columns.
pub uninterp spec fn wrapped_line_count(lines: Seq<Seq<char>>, width: u16) -> int;

/// The lines as their texts.
pub open spec fn line_texts(lines: Seq<String>) -> Seq<Seq<char>> {
    lines.map_values(|l: String| l@)
}

/// Trusted: `ratatui::widgets::Paragraph::line_count` of the lines (each
/// one unstyled `Line`) wrapped with `Wrap { trim: false }`. The count
/// depends only on the lines' graphemes and alignment (none here) and the
/// width, so it is named; as its source shows, a width of zero gives zero.
#[verifier::external_body]
pub(crate) fn count_wrapped_lines(lines: &Vec<String>, width: u16) -> (r: usize)
    ensures
        r == wrapped_line_count(line_texts(lines@), width),
        width == 0 ==> r == 0,
{
    let text: Vec<ratatui::text::Line> = lines.iter().map(|l| ratatui::text::Line::from(l.as_str())).collect();
    ratatui::widgets::Paragraph::new(text).wrap(ratatui::widgets::Wrap { trim: false }).line_count(width)
}

} // verus!
