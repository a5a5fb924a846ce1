//! The table of sessions: which lines are drawn, what they look like, and
//! which row each of them shows.
use vstd::prelude::*;
use vstd::string::*;
use crate::app::{App, AppView, Row, RowView};
use crate::browse;
use crate::moving;
use crate::numbers;
use crate::paint;
use crate::paint::{Ground, Ink, Line, SpanView, Style};
use crate::ssh::{Session, SessionView};

verus! {

/// How many columns the markers take.
pub const MARKER_WIDTH: u16 = 5;

/// How many columns the names take at least.
pub const NAME_WIDTH: u16 = 20;

/// How many columns a time takes.
pub const STAMP_WIDTH: u16 = 14;

/// How many columns separate two others.
pub const COLUMN_GAP: u16 = 1;

// --- A line ---

/// A line of the table.
#[derive(Clone, Debug)]
pub struct TableRow {
    pub marker: Line,
    pub name: Line,
    pub started: Line,
    pub active: Line,
    /// The style of the whole line, below that of its texts.
    pub style: Style,
}

/// What a [`TableRow`] says.
#[verifier::ext_equal]
pub struct TableRowView {
    pub marker: Seq<SpanView>,
    pub name: Seq<SpanView>,
    pub started: Seq<SpanView>,
    pub active: Seq<SpanView>,
    pub style: Style,
}

impl View for TableRow {
    type V = TableRowView;

    open spec fn view(&self) -> TableRowView {
        TableRowView {
            marker: self.marker@,
            name: self.name@,
            started: self.started@,
            active: self.active@,
            style: self.style,
        }
    }
}

/// What each line of a list says.
pub open spec fn table_row_views(list: Seq<TableRow>) -> Seq<TableRowView> {
    list.map_values(|r: TableRow| r@)
}

/// A line that says nothing but its name.
pub open spec fn name_only(name: Seq<SpanView>, style: Style) -> TableRowView {
    TableRowView {
        marker: Seq::empty(),
        name,
        started: Seq::empty(),
        active: Seq::empty(),
        style,
    }
}

/// The blank line between two groups.
pub open spec fn blank_row() -> TableRowView {
    name_only(Seq::empty(), paint::plain())
}

/// The titles of the columns.
pub open spec fn head_row() -> TableRowView {
    let dim = paint::inked(Ink::DarkGray);
    TableRowView {
        marker: Seq::empty(),
        name: seq![paint::piece("SESSION"@, dim)],
        started: seq![paint::piece("STARTED"@, dim)],
        active: seq![paint::piece("ACTIVE"@, dim)],
        style: paint::plain(),
    }
}

/// The entry for a new session.
pub open spec fn new_row(cursor: bool) -> TableRowView {
    if cursor {
        name_only(
            seq![paint::piece("+ New session"@, paint::highlighted())],
            Style { ink: Ink::Plain, ground: Ground::Blue, bold: false },
        )
    } else {
        name_only(
            seq![paint::piece("+ New session"@, paint::inked(Ink::Green))],
            paint::plain(),
        )
    }
}

/// The header of a project's group, with how many of its sessions are visible.
pub open spec fn header_row(project: Seq<char>, count: nat) -> TableRowView {
    name_only(
        seq![
            paint::piece(project, paint::bold(Ink::Magenta)),
            paint::piece(
                "  ("@ + numbers::decimal(count) + ")"@,
                paint::inked(Ink::DarkGray),
            ),
        ],
        paint::plain(),
    )
}

/// The style of a session's line.
pub open spec fn session_style(cursor: bool, picked: bool) -> Style {
    if cursor {
        paint::highlighted()
    } else if picked {
        Style { ink: Ink::Plain, ground: Ground::Shade, bold: false }
    } else {
        paint::plain()
    }
}

/// The style of a text in a session's line: under the cursor that of the line.
pub open spec fn text_style(cursor: bool, picked: bool, ink: Ink) -> Style {
    if cursor {
        paint::highlighted()
    } else {
        Style { ink, ..session_style(cursor, picked) }
    }
}

/// A session: a tick where it is picked, a full dot where it runs, and its
/// name without the project, hung below the header of its group; with the
/// times it was created and last active.
pub open spec fn session_row(
    s: SessionView,
    cursor: bool,
    picked: bool,
    last: bool,
) -> TableRowView {
    let stamp_style = text_style(cursor, picked, Ink::Yellow);
    TableRowView {
        marker: seq![
            paint::piece(
                if picked {
                    "✓"@
                } else {
                    " "@
                },
                paint::inked(Ink::Yellow),
            ),
            paint::piece("  "@, paint::plain()),
            if s.running {
                paint::piece("●"@, paint::inked(Ink::Green))
            } else {
                paint::piece("○"@, paint::inked(Ink::DarkGray))
            },
        ],
        name: seq![
            paint::piece(
                if last {
                    "└─"@
                } else {
                    "├─"@
                },
                text_style(cursor, picked, Ink::DarkGray),
            ),
            paint::piece(" "@, paint::plain()),
            paint::piece(
                moving::suffix_of(s.name),
                text_style(
                    cursor,
                    picked,
                    if s.running {
                        Ink::Cyan
                    } else {
                        Ink::DarkGray
                    },
                ),
            ),
        ],
        started: seq![paint::piece(s.created, stamp_style)],
        active: seq![paint::piece(s.activity, stamp_style)],
        style: session_style(cursor, picked),
    }
}

/// A line that says nothing but its name.
fn make_name_only(name: Line, style: Style) -> (r: TableRow)
    ensures
        r@ == name_only(name@, style),
{
    TableRow { marker: Line::new(), name, started: Line::new(), active: Line::new(), style }
}

/// The blank line between two groups.
fn spacer_row() -> (r: TableRow)
    ensures
        r@ == blank_row(),
{
    make_name_only(Line::new(), paint::plain())
}

/// The titles of the columns.
pub fn make_head_row() -> (r: TableRow)
    ensures
        r@ == head_row(),
{
    let dim = paint::inked(Ink::DarkGray);
    TableRow {
        marker: Line::new(),
        name: Line::of("SESSION", dim),
        started: Line::of("STARTED", dim),
        active: Line::of("ACTIVE", dim),
        style: paint::plain(),
    }
}

/// The entry for a new session.
fn make_new_row(cursor: bool) -> (r: TableRow)
    ensures
        r@ == new_row(cursor),
{
    if cursor {
        make_name_only(
            Line::of("+ New session", paint::highlighted()),
            Style { ink: Ink::Plain, ground: Ground::Blue, bold: false },
        )
    } else {
        make_name_only(Line::of("+ New session", paint::inked(Ink::Green)), paint::plain())
    }
}

/// The header of a project's group.
fn make_header_row(project: &str, count: usize) -> (r: TableRow)
    ensures
        r@ == header_row(project@, count as nat),
{
    let mut suffix = "  (".to_string();
    suffix.append(numbers::count_text(count).as_str());
    suffix.append(")");
    let mut name = Line::of(project, paint::bold(Ink::Magenta));
    name.put(suffix.as_str(), paint::inked(Ink::DarkGray));
    assert(name@ =~= header_row(project@, count as nat).name);
    make_name_only(name, paint::plain())
}

/// The style of a session's line.
fn make_session_style(cursor: bool, picked: bool) -> (r: Style)
    ensures
        r == session_style(cursor, picked),
{
    if cursor {
        paint::highlighted()
    } else if picked {
        Style { ink: Ink::Plain, ground: Ground::Shade, bold: false }
    } else {
        paint::plain()
    }
}

/// The style of a text in a session's line.
fn make_text_style(cursor: bool, picked: bool, ink: Ink) -> (r: Style)
    ensures
        r == text_style(cursor, picked, ink),
{
    let base = make_session_style(cursor, picked);
    if cursor {
        base
    } else {
        Style { ink, ground: base.ground, bold: base.bold }
    }
}

/// The line of a session.
fn make_session_row(s: &Session, cursor: bool, picked: bool, last: bool) -> (r: TableRow)
    ensures
        r@ == session_row(s@, cursor, picked, last),
{
    let mut marker = if picked {
        Line::of("✓", paint::inked(Ink::Yellow))
    } else {
        Line::of(" ", paint::inked(Ink::Yellow))
    };
    marker.put("  ", paint::plain());
    if s.running {
        marker.put("●", paint::inked(Ink::Green));
    } else {
        marker.put("○", paint::inked(Ink::DarkGray));
    }
    let thread_style = make_text_style(cursor, picked, Ink::DarkGray);
    let mut name = if last {
        Line::of("└─", thread_style)
    } else {
        Line::of("├─", thread_style)
    };
    name.put(" ", paint::plain());
    let name_ink = if s.running {
        Ink::Cyan
    } else {
        Ink::DarkGray
    };
    name.put(
        moving::session_suffix(s.name.as_str()),
        make_text_style(cursor, picked, name_ink),
    );
    let stamp_style = make_text_style(cursor, picked, Ink::Yellow);
    let r = TableRow {
        marker,
        name,
        started: Line::of(s.created.as_str(), stamp_style),
        active: Line::of(s.activity.as_str(), stamp_style),
        style: make_session_style(cursor, picked),
    };
    assert(r@ =~= session_row(s@, cursor, picked, last));
    r
}

// --- All lines ---

/// What a line of the table shows.
pub enum Shown {
    /// Nothing: it separates two groups.
    Spacer,
    /// The row of that index.
    Row(int),
}

/// Where `x` first stands in a list, or the length of the list.
pub open spec fn place_in(list: Seq<int>, x: int) -> int
    decreases list.len(),
{
    if list.len() == 0 || list[0] == x {
        0
    } else {
        1 + place_in(list.drop_first(), x)
    }
}

impl AppView {
    /// The lines for the first `n` rows: each visible row has one, and before
    /// the header of a group, unless it comes first, stands a spacer.
    pub open spec fn shown_lines(self, n: int) -> Seq<Shown>
        decreases n,
    {
        if n <= 0 {
            Seq::empty()
        } else {
            let above = self.shown_lines(n - 1);
            if !self.row_visible(n - 1) {
                above
            } else if self.rows[n - 1] is Header && above.len() > 0 {
                above.push(Shown::Spacer).push(Shown::Row(n - 1))
            } else {
                above.push(Shown::Row(n - 1))
            }
        }
    }

    /// The lines of the table.
    pub open spec fn table_lines(self) -> Seq<Shown> {
        self.shown_lines(self.rows.len() as int)
    }

    /// Whether the cursor stands on row `ri`.
    pub open spec fn under_cursor(self, ri: int) -> bool {
        0 <= self.cursor < self.selectable.len() && self.selectable[self.cursor] == ri
    }

    /// The line of the row under the cursor, of those for the first `n` rows.
    pub open spec fn cursor_line(self, n: int) -> Option<usize>
        decreases n,
    {
        if n <= 0 {
            None
        } else if self.row_visible(n - 1) && self.under_cursor(n - 1) {
            Some((self.shown_lines(n).len() - 1) as usize)
        } else {
            self.cursor_line(n - 1)
        }
    }

    /// The selectable row that a line shows.
    pub open spec fn line_row(self, line: Shown) -> Option<usize> {
        match line {
            Shown::Row(ri) if !(self.rows[ri] is Header) => {
                let place = place_in(self.selectable, ri);
                if place < self.selectable.len() {
                    Some(place as usize)
                } else {
                    None
                }
            },
            _ => None,
        }
    }

    /// What a line looks like.
    pub open spec fn drawn(self, line: Shown) -> TableRowView {
        match line {
            Shown::Spacer => blank_row(),
            Shown::Row(ri) => match self.rows[ri] {
                RowView::New => new_row(self.under_cursor(ri)),
                RowView::Header(project) => header_row(project, self.group_visible_count(ri)),
                RowView::Session(i) => session_row(
                    self.sessions[i],
                    self.under_cursor(ri),
                    self.picked.contains(self.sessions[i].name),
                    self.last_visible_in_group(ri),
                ),
            },
        }
    }
}

/// The table as it is drawn.
pub struct TableFrame {
    pub rows: Vec<TableRow>,
    /// For each line the selectable row it shows, or none.
    pub line_rows: Vec<Option<usize>>,
    /// The line of the row under the cursor, where it is visible.
    pub cursor: Option<usize>,
}

/// Where row `ri` stands among the selectable ones.
fn selectable_of(app: &App, ri: usize) -> (r: Option<usize>)
    ensures
        r == (if place_in(app@.selectable, ri as int) < app@.selectable.len() {
            Some(place_in(app@.selectable, ri as int) as usize)
        } else {
            None
        }),
{
    let mut k: usize = 0;
    assert(app@.selectable.skip(0) =~= app@.selectable);
    while k < app.selectable.len()
        invariant
            k <= app.selectable.len(),
            place_in(app@.selectable, ri as int) == k + place_in(
                app@.selectable.skip(k as int),
                ri as int,
            ),
        decreases app.selectable.len() - k,
    {
        assert(app@.selectable.skip(k as int)[0] == app.selectable@[k as int]);
        if app.selectable[k] == ri {
            return Some(k);
        }
        assert(app@.selectable.skip(k as int).drop_first() =~= app@.selectable.skip(k + 1));
        k += 1;
    }
    None
}

/// The line of a visible row.
fn draw_row(app: &App, ri: usize, cursor: bool) -> (r: TableRow)
    requires
        app@.in_range(),
        ri < app.rows.len(),
        cursor == app@.under_cursor(ri as int),
    ensures
        r@ == app@.drawn(Shown::Row(ri as int)),
{
    assert(app@.rows[ri as int] == app.rows@[ri as int]@);
    match &app.rows[ri] {
        Row::New => make_new_row(cursor),
        Row::Header(project) => make_header_row(project.as_str(), app.group_visible_count(ri)),
        Row::Session(i) => {
            assert(app@.sessions[*i as int] == app.sessions@[*i as int]@);
            let s = &app.sessions[*i];
            make_session_row(
                s,
                cursor,
                app.is_picked(s.name.as_str()),
                app.is_last_visible_in_group(ri),
            )
        },
    }
}

/// What the lines of the table look like, which row each of them shows, and
/// which of them is under the cursor.
pub fn render_table(app: &App) -> (r: TableFrame)
    requires
        app@.in_range(),
    ensures
        table_row_views(r.rows@) == app@.table_lines().map_values(|line: Shown| app@.drawn(line)),
        r.line_rows@ == app@.table_lines().map_values(|line: Shown| app@.line_row(line)),
        r.cursor == app@.cursor_line(app@.rows.len() as int),
{
    let ghost draw = |line: Shown| app@.drawn(line);
    let ghost link = |line: Shown| app@.line_row(line);
    let mut rows: Vec<TableRow> = Vec::new();
    let mut line_rows: Vec<Option<usize>> = Vec::new();
    let mut cursor: Option<usize> = None;
    let mut ri: usize = 0;
    assert(table_row_views(rows@) =~= app@.shown_lines(0).map_values(draw));
    assert(line_rows@ =~= app@.shown_lines(0).map_values(link));
    while ri < app.rows.len()
        invariant
            ri <= app.rows.len(),
            app@.in_range(),
            draw == (|line: Shown| app@.drawn(line)),
            link == (|line: Shown| app@.line_row(line)),
            table_row_views(rows@) == app@.shown_lines(ri as int).map_values(draw),
            line_rows@ == app@.shown_lines(ri as int).map_values(link),
            cursor == app@.cursor_line(ri as int),
        decreases app.rows.len() - ri,
    {
        assert(app@.rows[ri as int] == app.rows@[ri as int]@);
        let ghost above = app@.shown_lines(ri as int);
        let ghost lines = app@.shown_lines(ri + 1);
        assert(rows.len() == above.len()) by {
            assert(table_row_views(rows@).len() == above.map_values(draw).len());
        }
        if app.row_visible(ri) {
            let is_header = matches!(&app.rows[ri], Row::Header(_));
            if is_header && rows.len() > 0 {
                let ghost before = table_row_views(rows@);
                rows.push(spacer_row());
                line_rows.push(None);
                assert(table_row_views(rows@) =~= before.push(blank_row()));
                assert(table_row_views(rows@) =~= above.push(Shown::Spacer).map_values(draw));
                assert(line_rows@ =~= above.push(Shown::Spacer).map_values(link));
            }
            let ghost so_far = if is_header && above.len() > 0 {
                above.push(Shown::Spacer)
            } else {
                above
            };
            assert(table_row_views(rows@) == so_far.map_values(draw));
            assert(rows.len() == so_far.len()) by {
                assert(table_row_views(rows@).len() == so_far.map_values(draw).len());
            }
            assert(lines == so_far.push(Shown::Row(ri as int)));
            let here = app.cursor < app.selectable.len() && app.selectable[app.cursor] == ri;
            if here {
                cursor = Some(rows.len());
            }
            let row = if is_header {
                None
            } else {
                selectable_of(app, ri)
            };
            line_rows.push(row);
            let ghost before = table_row_views(rows@);
            rows.push(draw_row(app, ri, here));
            assert(table_row_views(rows@) =~= before.push(app@.drawn(Shown::Row(ri as int))));
            assert(table_row_views(rows@) =~= lines.map_values(draw));
            assert(line_rows@ =~= lines.map_values(link));
        }
        ri += 1;
    }
    TableFrame { rows, line_rows, cursor }
}

// --- Laws ---

/// The lines for the first `n` rows show exactly the visible ones, each once
/// and in order. No spacer comes first or last, and behind each stands the
/// header of a group.
pub proof fn lines_show_the_visible_rows(app: AppView, n: int)
    ensures
        ({
            let lines = app.shown_lines(n);
            &&& forall|k: int|
                0 <= k < lines.len() ==> match #[trigger] lines[k] {
                    Shown::Row(ri) => 0 <= ri < n && app.row_visible(ri),
                    Shown::Spacer => 0 < k && k + 1 < lines.len() && (lines[k + 1] matches
                        Shown::Row(ri) && app.rows[ri] is Header),
                }
            &&& forall|ri: int|
                0 <= ri < n && app.row_visible(ri) ==> #[trigger] lines.contains(Shown::Row(ri))
            &&& forall|a: int, b: int|
                0 <= a < b < lines.len() ==> match (#[trigger] lines[a], #[trigger] lines[b]) {
                    (Shown::Row(above), Shown::Row(below)) => above < below,
                    _ => true,
                }
        }),
    decreases n,
{
    if n > 0 {
        lines_show_the_visible_rows(app, n - 1);
        let above = app.shown_lines(n - 1);
        let lines = app.shown_lines(n);
        assert forall|k: int| 0 <= k < above.len() implies lines[k] == above[k] by {}
        assert forall|ri: int| 0 <= ri < n && app.row_visible(ri) implies #[trigger]
            lines.contains(Shown::Row(ri)) by {
            if ri == n - 1 {
                assert(lines[lines.len() - 1] == Shown::Row(ri));
            } else {
                assert(above.contains(Shown::Row(ri)));
                let k = choose|k: int| 0 <= k < above.len() && above[k] == Shown::Row(ri);
                assert(lines[k] == Shown::Row(ri));
            }
        }
        assert forall|k: int| 0 <= k < lines.len() implies match #[trigger] lines[k] {
            Shown::Row(ri) => 0 <= ri < n && app.row_visible(ri),
            Shown::Spacer => 0 < k && k + 1 < lines.len() && (lines[k + 1] matches Shown::Row(ri)
                && app.rows[ri] is Header),
        } by {
            if k < above.len() {
                assert(lines[k] == above[k]);
                if above[k] is Spacer {
                    assert(lines[k + 1] == above[k + 1]);
                }
            }
        }
    }
}

/// Where a place is found, it holds what was looked for, and nothing before it
/// does.
proof fn lemma_place_in(list: Seq<int>, x: int)
    ensures
        0 <= place_in(list, x) <= list.len(),
        place_in(list, x) < list.len() ==> list[place_in(list, x)] == x,
        forall|k: int| 0 <= k < place_in(list, x) ==> #[trigger] list[k] != x,
    decreases list.len(),
{
    if list.len() > 0 && list[0] != x {
        let rest = list.drop_first();
        lemma_place_in(rest, x);
        assert forall|k: int| 0 <= k < place_in(list, x) implies #[trigger] list[k] != x by {
            if k > 0 {
                assert(rest[k - 1] == list[k]);
            }
        }
    }
}

/// A line leads to a row of the list, and to the one that it shows.
pub proof fn lines_lead_into_the_list(app: AppView, line: Shown)
    requires
        app.selectable.len() <= usize::MAX,
    ensures
        app.line_row(line) matches Some(k) ==> k < app.selectable.len() && line == Shown::Row(
            app.selectable[k as int],
        ),
{
    if let Shown::Row(ri) = line {
        lemma_place_in(app.selectable, ri);
    }
}

/// The line under the cursor shows the row that the cursor stands on, and
/// leads back to it. There is such a line where the row is visible.
pub proof fn the_cursor_line_leads_to_the_cursor(app: AppView)
    requires
        app.well_formed(),
        app.table_lines().len() <= usize::MAX,
        app.selectable.len() <= usize::MAX,
    ensures
        match app.cursor_line(app.rows.len() as int) {
            Some(c) => {
                &&& c < app.table_lines().len()
                &&& app.table_lines()[c as int] == Shown::Row(app.selectable[app.cursor])
                &&& app.line_row(app.table_lines()[c as int]) == Some(app.cursor as usize)
            },
            None => !app.row_visible(app.selectable[app.cursor]),
        },
{
    let ri = app.selectable[app.cursor];
    crate::app::lemma_selectable(app.rows);
    lemma_cursor_line(app, app.rows.len() as int);
    lemma_place_in(app.selectable, ri);
    let place = place_in(app.selectable, ri);
    if place < app.cursor {
        assert(app.selectable[place] == ri);
    }
}

/// Where the line under the cursor is, of those for the first `n` rows.
proof fn lemma_cursor_line(app: AppView, n: int)
    requires
        0 <= n <= app.rows.len(),
        0 <= app.cursor < app.selectable.len(),
        app.table_lines().len() <= usize::MAX,
    ensures
        app.shown_lines(n).len() <= app.table_lines().len(),
        match app.cursor_line(n) {
            Some(c) => {
                &&& c < app.shown_lines(n).len()
                &&& app.shown_lines(n)[c as int] == Shown::Row(app.selectable[app.cursor])
            },
            None => !(0 <= app.selectable[app.cursor] < n && app.row_visible(
                app.selectable[app.cursor],
            )),
        },
    decreases n,
{
    lemma_shown_grows(app, n, app.rows.len() as int);
    if n > 0 {
        lemma_cursor_line(app, n - 1);
        lemma_shown_grows(app, n - 1, n);
    }
}

/// More rows add lines at the end.
proof fn lemma_shown_grows(app: AppView, n: int, m: int)
    requires
        0 <= n <= m,
    ensures
        app.shown_lines(n).len() <= app.shown_lines(m).len(),
        forall|k: int|
            0 <= k < app.shown_lines(n).len() ==> app.shown_lines(m)[k] == #[trigger] app.shown_lines(
                n,
            )[k],
    decreases m,
{
    if n < m {
        lemma_shown_grows(app, n, m - 1);
    }
}

/// The line of a session shows it: the part of its name behind the project, the
/// times it was created and last active, a tick where it is picked, a full dot
/// where it runs and an empty one where it does not, and blue ground where the
/// cursor stands on it. The last visible session of a group hangs on a corner.
pub proof fn a_line_shows_its_session(app: AppView, ri: int, i: int)
    requires
        0 <= ri < app.rows.len(),
        app.rows[ri] == RowView::Session(i),
    ensures
        ({
            let s = app.sessions[i];
            let line = app.drawn(Shown::Row(ri));
            &&& line.name.len() == 3 && line.name[2].text == moving::suffix_of(s.name)
            &&& line.started.len() == 1 && line.started[0].text == s.created
            &&& line.active.len() == 1 && line.active[0].text == s.activity
            &&& line.marker.len() == 3
            &&& line.marker[0].text == "✓"@ <==> app.picked.contains(s.name)
            &&& line.marker[2].text == if s.running {
                "●"@
            } else {
                "○"@
            }
            &&& line.style.ground is Blue <==> (0 <= app.cursor < app.selectable.len()
                && app.selectable[app.cursor] == ri)
            &&& line.name[2].style.ground == line.style.ground
            &&& line.name[0].text == if exists|k: int| #[trigger]
                browse::in_group(app.rows, ri, k) && app.row_visible(k) {
                "├─"@
            } else {
                "└─"@
            }
        }),
{
    reveal_strlit("✓");
    reveal_strlit(" ");
    assert(("✓"@)[0] != (" "@)[0]);
}

/// The line of a header shows its project and how many of its sessions are
/// visible; that of the entry for a new session says so, on blue ground where
/// the cursor stands on it; a spacer says nothing.
pub proof fn other_lines_show_what_they_are(app: AppView, ri: int)
    requires
        0 <= ri < app.rows.len(),
    ensures
        app.rows[ri] matches RowView::Header(project) ==> {
            let line = app.drawn(Shown::Row(ri));
            &&& line.name.len() == 2 && line.name[0].text == project
            &&& line.name[1].text == "  ("@ + numbers::decimal(app.group_visible_count(ri)) + ")"@
            &&& line.marker.len() == 0 && line.started.len() == 0 && line.active.len() == 0
        },
        app.rows[ri] is New ==> {
            let line = app.drawn(Shown::Row(ri));
            &&& line.name.len() == 1 && line.name[0].text == "+ New session"@
            &&& line.style.ground is Blue <==> (0 <= app.cursor < app.selectable.len()
                && app.selectable[app.cursor] == ri)
        },
        app.drawn(Shown::Spacer).name.len() == 0,
{
}

/// A spacer stands before every header but one in the first line.
pub proof fn groups_stand_apart(app: AppView, n: int, k: int)
    requires
        0 < k < app.shown_lines(n).len(),
        app.shown_lines(n)[k] matches Shown::Row(ri) && app.rows[ri] is Header,
    ensures
        app.shown_lines(n)[k - 1] is Spacer,
    decreases n,
{
    if n > 0 {
        let above = app.shown_lines(n - 1);
        if k < above.len() {
            assert(app.shown_lines(n)[k] == above[k]);
            groups_stand_apart(app, n - 1, k);
            assert(app.shown_lines(n)[k - 1] == above[k - 1]);
        }
    }
}

/// The line of every row that the cursor can stand on leads back to that row;
/// that of a header, and a spacer, lead nowhere.
pub proof fn every_row_can_be_clicked(app: AppView, k: int, ri: int)
    requires
        app.well_formed(),
        0 <= k < app.selectable.len() <= usize::MAX,
    ensures
        app.line_row(Shown::Row(app.selectable[k])) == Some(k as usize),
        app.rows[ri] is Header ==> app.line_row(Shown::Row(ri)) is None,
        app.line_row(Shown::Spacer) is None,
{
    crate::app::lemma_selectable(app.rows);
    let at = app.selectable[k];
    lemma_place_in(app.selectable, at);
    let place = place_in(app.selectable, at);
    if place < k {
        assert(app.selectable[place] == at);
    } else if place > k {
        assert(app.selectable[k] != at);
    }
}

}
