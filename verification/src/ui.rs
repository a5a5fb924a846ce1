//! A frame: the parts of the screen, and what each of them shows.
use vstd::prelude::*;
use vstd::string::*;
use crate::app::{App, AppView};
use crate::bar;
use crate::events;
use crate::mouse::{MouseMap, MouseMapView, Rect};
use crate::paint::{Line, SpanView};
use crate::popup;
use crate::popup::Popup;
use crate::table;
use crate::table::{Shown, TableFrame};

verus! {

// --- The parts of the screen ---

/// How many rows a part of the screen takes.
#[derive(Clone, Copy, Debug, PartialEq, Eq, Structural)]
pub enum Height {
    Exactly(u16),
    AtLeast(u16),
}

/// How many rows the first `n` parts take at least.
pub open spec fn least_rows(heights: Seq<Height>, n: int) -> int
    decreases n,
{
    if n <= 0 {
        0
    } else {
        least_rows(heights, n - 1) + match heights[n - 1] {
            Height::Exactly(rows) => rows as int,
            Height::AtLeast(rows) => rows as int,
        }
    }
}

/// Whether exactly one part takes what the others leave.
pub open spec fn one_grows(heights: Seq<Height>) -> bool {
    exists|g: int|
        0 <= g < heights.len() && #[trigger] heights[g] is AtLeast && forall|i: int|
            0 <= i < heights.len() && i != g ==> #[trigger] heights[i] is Exactly
}

/// How many rows part `i` gets, of `whole` that are to be shared.
pub open spec fn shared_rows(heights: Seq<Height>, i: int, whole: int) -> int {
    match heights[i] {
        Height::Exactly(rows) => rows as int,
        Height::AtLeast(rows) => rows + (whole - least_rows(heights, heights.len() as int)),
    }
}

/// How many rows the parts before part `i` get.
pub open spec fn rows_above(heights: Seq<Height>, i: int, whole: int) -> int
    decreases i,
{
    if i <= 0 {
        0
    } else {
        rows_above(heights, i - 1, whole) + shared_rows(heights, i - 1, whole)
    }
}

/// Splits an area into parts that lie one below the other. The work is done by
/// `Layout::split` of ratatui, with a vertical layout that has no margin, and
/// `Constraint::Length` and `Constraint::Min` for the two kinds of heights.
///
/// Claimed is that there is a part for each height, that it has the columns of
/// the area, and that it lies within the area. Where one part grows and the area
/// has the rows that all ask for, a part with a fixed height has that height, the
/// one that grows has what is left, and no row lies between two parts. Where
/// there are too few rows, a minimum goes before a fixed height: the part that
/// grows has the rows it asks for, or the whole area. How the others share what
/// is left then, and what happens where none or several grow, is left to the
/// solver behind the layout, which walks hash maps whose order differs from one
/// process to the next, and is not stated.
#[verifier::external_body]
fn split_rows(area: Rect, heights: &Vec<Height>) -> (r: Vec<Rect>)
    requires
        area.fits(),
    ensures
        r.len() == heights.len(),
        forall|i: int| 0 <= i < r.len() ==> (#[trigger] r[i]).x == area.x,
        forall|i: int| 0 <= i < r.len() ==> (#[trigger] r[i]).width == area.width,
        forall|i: int| 0 <= i < r.len() ==> (#[trigger] r[i]).inside(area),
        one_grows(heights@) && least_rows(heights@, heights.len() as int) <= area.height
            ==> forall|i: int|
            0 <= i < r.len() ==> {
                &&& (#[trigger] r[i]).height == shared_rows(heights@, i, area.height as int)
                &&& r[i].y == area.y + rows_above(heights@, i, area.height as int)
            },
        one_grows(heights@) ==> forall|i: int|
            0 <= i < r.len() ==> match heights[i] {
                Height::AtLeast(rows) => rows <= i16::MAX ==> (#[trigger] r[i]).height >= rows
                    || r[i].height == area.height,
                Height::Exactly(_) => true,
            },
{
    let constraints = heights.iter().map(|h| match h {
        Height::Exactly(n) => ratatui::layout::Constraint::Length(*n),
        Height::AtLeast(n) => ratatui::layout::Constraint::Min(*n),
    });
    let whole = ratatui::layout::Rect::new(area.x, area.y, area.width, area.height);
    let layout = ratatui::layout::Layout::default()
        .direction(ratatui::layout::Direction::Vertical)
        .constraints(constraints);
    let parts = layout.split(whole);
    parts.iter().map(|p| Rect { x: p.x, y: p.y, width: p.width, height: p.height }).collect()
}

/// Where the parts of a frame stand.
#[derive(Clone, Copy, Debug, PartialEq, Eq, Structural)]
pub struct Parts {
    pub title: Rect,
    pub table: Rect,
    pub bar: Rect,
    pub hint: Rect,
}

/// The heights of the parts of a frame: the title, the table, a gap, the
/// action bar and the hint.
pub open spec fn part_heights() -> Seq<Height> {
    seq![
        Height::Exactly(2),
        Height::AtLeast(3),
        Height::Exactly(1),
        Height::Exactly(1),
        Height::Exactly(1),
    ]
}

/// The heights of the parts of a frame.
fn make_part_heights() -> (r: Vec<Height>)
    ensures
        r@ == part_heights(),
{
    let mut heights: Vec<Height> = Vec::new();
    heights.push(Height::Exactly(2));
    heights.push(Height::AtLeast(3));
    heights.push(Height::Exactly(1));
    heights.push(Height::Exactly(1));
    heights.push(Height::Exactly(1));
    assert(heights@ =~= part_heights());
    heights
}

/// The parts of a frame, of all the parts that its area was split into. The
/// gap stays blank.
pub fn choose_parts(chunks: &Vec<Rect>) -> (r: Parts)
    requires
        chunks.len() == part_heights().len(),
    ensures
        r == (Parts {
            title: chunks[0],
            table: chunks[1],
            bar: chunks[3],
            hint: chunks[4],
        }),
{
    Parts { title: chunks[0], table: chunks[1], bar: chunks[3], hint: chunks[4] }
}

/// Whether the parts of a frame share the rows of an area as they should: two
/// for the title, one each for the gap, the action bar and the hint, and what is
/// left for the table.
pub open spec fn share_rows(parts: Parts, area: Rect) -> bool {
    &&& parts.title.y == area.y && parts.title.height == 2
    &&& parts.table.y == area.y + 2 && parts.table.height == area.height - 5
    &&& parts.bar.y == area.y + area.height - 2 && parts.bar.height == 1
    &&& parts.hint.y == area.y + area.height - 1 && parts.hint.height == 1
}

/// Where the parts of a frame stand in an area. Eight rows are enough for all
/// of them; where there are fewer, the table gets its three before the others.
pub fn layout(area: Rect) -> (r: Parts)
    requires
        area.fits(),
    ensures
        area.height >= 8 ==> share_rows(r, area),
        r.table.height >= 3 || r.table.height == area.height,
        r.title.x == area.x && r.title.width == area.width && r.title.inside(area),
        r.table.x == area.x && r.table.width == area.width && r.table.inside(area),
        r.bar.x == area.x && r.bar.width == area.width && r.bar.inside(area),
        r.hint.x == area.x && r.hint.width == area.width && r.hint.inside(area),
{
    let heights = make_part_heights();
    let chunks = split_rows(area, &heights);
    proof {
        reveal_with_fuel(least_rows, 6);
        reveal_with_fuel(rows_above, 6);
        assert(heights@[1] is AtLeast);
        assert(one_grows(heights@));
        assert(least_rows(heights@, 5) == 8);
        assert(area.height >= 8 ==> chunks[0].y == area.y && chunks[1].y == area.y + 2
            && chunks[3].y == area.y + area.height - 2 && chunks[4].y == area.y + area.height - 1);
    }
    choose_parts(&chunks)
}

// --- A frame ---

/// What a frame is made from.
pub struct RenderCtx<'a> {
    pub app: &'a App,
    /// The host up to the first dot.
    pub host_short: &'a str,
    /// Whether the archived sessions are shown.
    pub show_archived: bool,
    /// How many sessions are archived.
    pub archived_count: usize,
}

/// A frame: what is drawn, and where.
pub struct Frame {
    pub parts: Parts,
    pub title: Line,
    pub table: TableFrame,
    pub bar: Line,
    /// The hint, or what is going on.
    pub hint: Line,
    /// The popup of an open prompt, drawn over the rest.
    pub popup: Option<Popup>,
}

impl AppView {
    /// The lowest line: what is going on, or the hint.
    pub open spec fn lowest_line(self, show_archived: bool) -> Seq<SpanView> {
        match self.status {
            Some(status) => bar::status_line(status),
            None => bar::hint_line(self.search, show_archived),
        }
    }
}

/// Whether a frame shows a state, a host and what is known of archived
/// sessions.
pub open spec fn is_frame_of(
    frame: Frame,
    app: AppView,
    host_short: Seq<char>,
    show_archived: bool,
    archived_count: nat,
    area: Rect,
) -> bool {
    let lines = app.table_lines();
    &&& frame.title@ == bar::title_line(host_short, show_archived, archived_count)
    &&& table::table_row_views(frame.table.rows@) == lines.map_values(
        |line: Shown| app.drawn(line),
    )
    &&& frame.table.line_rows@ == lines.map_values(|line: Shown| app.line_row(line))
    &&& frame.table.cursor == app.cursor_line(app.rows.len() as int)
    &&& frame.bar@ == bar::bar_line(app.action, app.picked.len(), show_archived)
    &&& frame.hint@ == app.lowest_line(show_archived)
    &&& popup::is_popup_of(frame.popup, app.prompt, area)
}

/// The frame in an area that was split into the given parts. The map notes
/// where the action bar is drawn; where the table is, it notes once the first
/// line that is drawn is known.
pub fn render_parts(ctx: &RenderCtx, area: Rect, parts: Parts, map: &mut MouseMap) -> (r: Frame)
    requires
        ctx.app@.in_range(),
        area.fits(),
        parts.bar.x + bar::bar_width(bar::bar_segments(ctx.show_archived), ctx.app@.picked.len()) <= u16::MAX,
    ensures
        r.parts == parts,
        is_frame_of(
            r,
            ctx.app@,
            ctx.host_short@,
            ctx.show_archived,
            ctx.archived_count as nat,
            area,
        ),
        final(map)@ == old(map)@.with_bar(
            parts.bar.y,
            bar::bar_regions(bar::bar_segments(ctx.show_archived), parts.bar.x, ctx.app@.picked.len()),
        ),
{
    let title = bar::render_title(ctx.host_short, ctx.show_archived, ctx.archived_count);
    let table = table::render_table(ctx.app);
    let actions = bar::render_action_bar(ctx.app, parts.bar.x, ctx.show_archived);
    map.note_bar(parts.bar.y, actions.regions);
    let hint = match &ctx.app.status {
        Some(status) => bar::render_status(status.as_str()),
        None => bar::render_hint(ctx.app.search.as_str(), ctx.show_archived),
    };
    let popup = popup::render_prompt(&ctx.app.prompt, area);
    Frame { parts, title, table, bar: actions.line, hint, popup }
}

/// The frame in an area.
pub fn render(ctx: &RenderCtx, area: Rect, map: &mut MouseMap) -> (r: Frame)
    requires
        ctx.app@.in_range(),
        area.fits(),
        area.x + bar::bar_width(bar::bar_segments(ctx.show_archived), ctx.app@.picked.len()) <= u16::MAX,
    ensures
        area.height >= 8 ==> share_rows(r.parts, area),
        r.parts.table.height >= 3 || r.parts.table.height == area.height,
        r.parts.title.inside(area) && r.parts.table.inside(area) && r.parts.bar.inside(area)
            && r.parts.hint.inside(area),
        r.parts.title.x == area.x && r.parts.table.x == area.x && r.parts.bar.x == area.x
            && r.parts.hint.x == area.x,
        r.parts.title.width == area.width && r.parts.table.width == area.width
            && r.parts.bar.width == area.width && r.parts.hint.width == area.width,
        is_frame_of(
            r,
            ctx.app@,
            ctx.host_short@,
            ctx.show_archived,
            ctx.archived_count as nat,
            area,
        ),
        final(map)@ == old(map)@.with_bar(
            r.parts.bar.y,
            bar::bar_regions(bar::bar_segments(ctx.show_archived), area.x, ctx.app@.picked.len()),
        ),
{
    let parts = layout(area);
    render_parts(ctx, area, parts, map)
}

// --- Laws ---

/// Where the lines of a frame are noted, whatever line comes first and
/// wherever it stands, a click on the table leads to a row of the list, and to
/// the one that the line shows.
pub proof fn clicks_lead_into_the_list(
    app: AppView,
    map: MouseMapView,
    area: Rect,
    offset: int,
    col: u16,
    row: u16,
)
    requires
        offset >= 0,
        app.selectable.len() <= usize::MAX,
    ensures
        ({
            let lines = app.table_lines();
            let noted = map.with_table(
                area,
                offset,
                lines.map_values(|line: Shown| app.line_row(line)),
            );
            &&& events::points_into(noted, app.selectable.len() as int)
            &&& noted.hit_row(col, row) matches Some(k) ==> {
                let line = noted.offset + (row - noted.data_rect.y);
                &&& k < app.selectable.len()
                &&& lines[line] == Shown::Row(app.selectable[k as int])
            }
        }),
{
    let lines = app.table_lines();
    let rows = lines.map_values(|line: Shown| app.line_row(line));
    assert forall|i: int| 0 <= i < rows.len() implies match #[trigger] rows[i] {
        Some(k) => k < app.selectable.len() && lines[i] == Shown::Row(app.selectable[k as int]),
        None => true,
    } by {
        table::lines_lead_into_the_list(app, lines[i]);
    }
}

/// The lowest line shows what is going on, where something is, and else the
/// hint, which shows what is searched for.
pub proof fn the_lowest_line_shows_what_goes_on(app: AppView, show_archived: bool)
    ensures
        app.status matches Some(status) ==> app.lowest_line(show_archived) == bar::status_line(
            status,
        ),
        app.status is None ==> app.lowest_line(show_archived) == bar::hint_line(
            app.search,
            show_archived,
        ),
{
}

}
