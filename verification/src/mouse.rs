//! Where things were drawn, so that a click can be traced back to a row or an
//! action.
use vstd::prelude::*;
use crate::app::Action;
use crate::table::MARKER_WIDTH;

verus! {

/// A rectangle of terminal cells.
#[derive(Clone, Copy, Debug, PartialEq, Eq, Structural)]
pub struct Rect {
    pub x: u16,
    pub y: u16,
    pub width: u16,
    pub height: u16,
}

impl Rect {
    /// Whether the cell at column `col` and row `row` is in the rectangle.
    pub open spec fn holds(self, col: u16, row: u16) -> bool {
        self.x <= col < self.x + self.width && self.y <= row < self.y + self.height
    }

    /// Whether the rectangle lies within `area`.
    pub open spec fn inside(self, area: Rect) -> bool {
        &&& area.x <= self.x && self.x + self.width <= area.x + area.width
        &&& area.y <= self.y && self.y + self.height <= area.y + area.height
    }

    /// Whether the far edges of the rectangle have coordinates.
    pub open spec fn fits(self) -> bool {
        self.x + self.width <= u16::MAX && self.y + self.height <= u16::MAX
    }
}

/// What a part of the action bar stands for: an action of the list, or moving
/// sessions to or from the archive, which the list has no action for.
#[derive(Clone, Copy, Debug, PartialEq, Eq, Structural)]
pub enum Segment {
    Run(Action),
    Archive,
    Unarchive,
}

/// A clickable part of the action bar: the columns from `start` up to but not
/// including `end`.
#[derive(Clone, Copy, Debug, PartialEq, Eq, Structural)]
pub struct Region {
    pub start: u16,
    pub end: u16,
    pub segment: Segment,
}

/// Where the last frame drew things.
pub struct MouseMap {
    data_rect: Rect,
    offset: usize,
    line_rows: Vec<Option<usize>>,
    regions: Vec<Region>,
    bar_y: u16,
    marker_end: u16,
}

/// What a [`MouseMap`] says.
#[verifier::ext_equal]
pub struct MouseMapView {
    /// Where the lines of the table are drawn.
    pub data_rect: Rect,
    /// The line that is drawn first.
    pub offset: int,
    /// For each line the selectable row it shows, or none.
    pub line_rows: Seq<Option<usize>>,
    /// The parts of the action bar, from left to right.
    pub regions: Seq<Region>,
    /// The terminal row of the action bar.
    pub bar_y: u16,
    /// The column behind the markers.
    pub marker_end: u16,
}

impl View for MouseMap {
    type V = MouseMapView;

    closed spec fn view(&self) -> MouseMapView {
        MouseMapView {
            data_rect: self.data_rect,
            offset: self.offset as int,
            line_rows: self.line_rows@,
            regions: self.regions@,
            bar_y: self.bar_y,
            marker_end: self.marker_end,
        }
    }
}

/// What the first region that holds the column stands for.
pub open spec fn region_segment(regions: Seq<Region>, col: u16) -> Option<Segment>
    decreases regions.len(),
{
    if regions.len() == 0 {
        None
    } else if regions[0].start <= col < regions[0].end {
        Some(regions[0].segment)
    } else {
        region_segment(regions.drop_first(), col)
    }
}

impl MouseMapView {
    /// The selectable row that a click hits.
    pub open spec fn hit_row(self, col: u16, row: u16) -> Option<usize> {
        let line = self.offset + (row - self.data_rect.y);
        if self.data_rect.holds(col, row) && line < self.line_rows.len() {
            self.line_rows[line]
        } else {
            None
        }
    }

    /// The part of the action bar that a click hits.
    pub open spec fn hit_segment(self, col: u16, row: u16) -> Option<Segment> {
        if row == self.bar_y {
            region_segment(self.regions, col)
        } else {
            None
        }
    }

    /// The action that a click hits.
    pub open spec fn hit_action(self, col: u16, row: u16) -> Option<Action> {
        match self.hit_segment(col, row) {
            Some(Segment::Run(action)) => Some(action),
            _ => None,
        }
    }

    /// The selectable row whose marker a click hits.
    pub open spec fn hit_marker(self, col: u16, row: u16) -> Option<usize> {
        if col < self.marker_end {
            self.hit_row(col, row)
        } else {
            None
        }
    }

    /// The map once the table was drawn in `area`, with the line `offset`
    /// first: the border and the column titles surround the lines, and the
    /// markers take the first columns.
    pub open spec fn with_table(
        self,
        area: Rect,
        offset: int,
        line_rows: Seq<Option<usize>>,
    ) -> MouseMapView {
        let data_rect = table_data(area);
        MouseMapView {
            data_rect,
            offset: if offset > line_rows.len() {
                line_rows.len() as int
            } else {
                offset
            },
            line_rows,
            marker_end: saturating_sum(data_rect.x, MARKER_WIDTH),
            ..self
        }
    }

    /// The map once the action bar was drawn in the terminal row `y`.
    pub open spec fn with_bar(self, y: u16, regions: Seq<Region>) -> MouseMapView {
        MouseMapView { bar_y: y, regions, ..self }
    }
}

/// The sum, or the largest coordinate where it is larger.
pub open spec fn saturating_sum(a: u16, b: u16) -> u16 {
    if a + b > u16::MAX {
        u16::MAX
    } else {
        (a + b) as u16
    }
}

/// The difference, or 0 where it is negative.
pub open spec fn saturating_difference(a: u16, b: u16) -> u16 {
    if a < b {
        0
    } else {
        (a - b) as u16
    }
}

/// Where the lines of a table that is drawn in `area` stand: within the
/// border, below the column titles.
pub open spec fn table_data(area: Rect) -> Rect {
    Rect {
        x: saturating_sum(area.x, 1),
        y: saturating_sum(area.y, 2),
        width: saturating_difference(area.width, 2),
        height: saturating_difference(area.height, 3),
    }
}

/// The sum, or the largest coordinate where it is larger.
fn add_capped(a: u16, b: u16) -> (r: u16)
    ensures
        r == saturating_sum(a, b),
{
    if a > u16::MAX - b {
        u16::MAX
    } else {
        a + b
    }
}

/// The difference, or 0 where it is negative.
pub fn minus_capped(a: u16, b: u16) -> (r: u16)
    ensures
        r == saturating_difference(a, b),
{
    if a < b {
        0
    } else {
        a - b
    }
}

impl Default for MouseMap {
    /// The map before anything was drawn: no click hits anything.
    fn default() -> (r: MouseMap)
        ensures
            r@ == (MouseMapView {
                data_rect: Rect { x: 0, y: 0, width: 0, height: 0 },
                offset: 0,
                line_rows: Seq::empty(),
                regions: Seq::empty(),
                bar_y: 0,
                marker_end: 0,
            }),
            forall|col: u16, row: u16|
                (#[trigger] r@.hit_row(col, row)) is None && r@.hit_segment(col, row) is None,
    {
        MouseMap {
            data_rect: Rect { x: 0, y: 0, width: 0, height: 0 },
            offset: 0,
            line_rows: Vec::new(),
            regions: Vec::new(),
            bar_y: 0,
            marker_end: 0,
        }
    }
}

impl MouseMap {
    /// The selectable row that a click hits.
    pub fn hit_row(&self, col: u16, row: u16) -> (r: Option<usize>)
        ensures
            r == self@.hit_row(col, row),
    {
        let area = self.data_rect;
        if col < area.x || col as u32 >= area.x as u32 + area.width as u32 {
            return None;
        }
        if row < area.y || row as u32 >= area.y as u32 + area.height as u32 {
            return None;
        }
        let k = (row - area.y) as usize;
        if self.offset < self.line_rows.len() && k < self.line_rows.len() - self.offset {
            self.line_rows[self.offset + k]
        } else {
            None
        }
    }

    /// The part of the action bar that a click hits.
    pub fn hit_segment(&self, col: u16, row: u16) -> (r: Option<Segment>)
        ensures
            r == self@.hit_segment(col, row),
    {
        if row != self.bar_y {
            return None;
        }
        let mut i: usize = 0;
        assert(self.regions@.skip(0) =~= self.regions@);
        while i < self.regions.len()
            invariant
                i <= self.regions.len(),
                row == self.bar_y,
                region_segment(self.regions@, col) == region_segment(
                    self.regions@.skip(i as int),
                    col,
                ),
            decreases self.regions.len() - i,
        {
            let region = self.regions[i];
            assert(self.regions@.skip(i as int)[0] == region);
            if region.start <= col && col < region.end {
                return Some(region.segment);
            }
            assert(self.regions@.skip(i as int).drop_first() =~= self.regions@.skip(i + 1));
            i += 1;
        }
        None
    }

    /// The action that a click hits.
    pub fn hit_action(&self, col: u16, row: u16) -> (r: Option<Action>)
        ensures
            r == self@.hit_action(col, row),
    {
        match self.hit_segment(col, row) {
            Some(Segment::Run(action)) => Some(action),
            _ => None,
        }
    }

    /// The selectable row whose marker a click hits.
    pub fn hit_marker(&self, col: u16, row: u16) -> (r: Option<usize>)
        ensures
            r == self@.hit_marker(col, row),
    {
        if col >= self.marker_end {
            return None;
        }
        self.hit_row(col, row)
    }

    /// Notes where the table was drawn: in `area`, with the line `offset`
    /// first; `line_rows` says which selectable row each line shows.
    pub fn note_table(&mut self, area: Rect, offset: usize, line_rows: Vec<Option<usize>>)
        ensures
            final(self)@ == old(self)@.with_table(area, offset as int, line_rows@),
    {
        self.data_rect = Rect {
            x: add_capped(area.x, 1),
            y: add_capped(area.y, 2),
            width: minus_capped(area.width, 2),
            height: minus_capped(area.height, 3),
        };
        self.offset = if offset > line_rows.len() {
            line_rows.len()
        } else {
            offset
        };
        self.line_rows = line_rows;
        self.marker_end = add_capped(self.data_rect.x, MARKER_WIDTH);
        assert(self@ =~= old(self)@.with_table(area, offset as int, line_rows@));
    }

    /// Notes where the action bar was drawn.
    pub fn note_bar(&mut self, y: u16, regions: Vec<Region>)
        ensures
            final(self)@ == old(self)@.with_bar(y, regions@),
    {
        self.bar_y = y;
        self.regions = regions;
        assert(self@ =~= old(self)@.with_bar(y, regions@));
    }
}

// --- Laws ---

/// The lines of a table lie within its area, where the area is large enough to
/// have lines at all.
pub proof fn lines_lie_in_the_table(area: Rect)
    requires
        area.fits(),
    ensures
        table_data(area).fits(),
        area.width >= 2 && area.height >= 3 ==> table_data(area).inside(area),
{
}

/// A click on a marker is a click on the row.
pub proof fn markers_are_part_of_rows(map: MouseMapView, col: u16, row: u16)
    ensures
        map.hit_marker(col, row) is Some ==> map.hit_marker(col, row) == map.hit_row(col, row),
{
}

/// The `k`-th line that is drawn is the one `k` behind the first, and every
/// click on it within the table hits the row it shows.
pub proof fn clicks_hit_the_drawn_line(
    map: MouseMapView,
    area: Rect,
    offset: int,
    line_rows: Seq<Option<usize>>,
    col: u16,
    k: u16,
)
    requires
        area.fits(),
        0 <= offset,
        table_data(area).x <= col < table_data(area).x + table_data(area).width,
        k < table_data(area).height,
        offset + k < line_rows.len(),
    ensures
        map.with_table(area, offset, line_rows).hit_row(col, (table_data(area).y + k) as u16)
            == line_rows[offset + k],
{
}

/// A click beside the lines of the table, or below the last of them, hits no
/// row; one beside the action bar hits no part of it.
pub proof fn clicks_beside_hit_nothing(map: MouseMapView, col: u16, row: u16)
    ensures
        col < map.data_rect.x || col >= map.data_rect.x + map.data_rect.width || row
            < map.data_rect.y || row >= map.data_rect.y + map.data_rect.height || map.offset + (row
            - map.data_rect.y) >= map.line_rows.len() ==> map.hit_row(col, row) is None
            && map.hit_marker(col, row) is None,
        row != map.bar_y ==> map.hit_segment(col, row) is None && map.hit_action(col, row) is None,
        (forall|i: int|
            0 <= i < map.regions.len() ==> col < (#[trigger] map.regions[i]).start || col
                >= map.regions[i].end) ==> map.hit_segment(col, row) is None,
{
    if forall|i: int|
        0 <= i < map.regions.len() ==> col < (#[trigger] map.regions[i]).start || col
            >= map.regions[i].end {
        lemma_no_region(map.regions, col);
    }
}

/// A column that no region holds hits none.
proof fn lemma_no_region(regions: Seq<Region>, col: u16)
    requires
        forall|i: int|
            0 <= i < regions.len() ==> col < (#[trigger] regions[i]).start || col
                >= regions[i].end,
    ensures
        region_segment(regions, col) is None,
    decreases regions.len(),
{
    if regions.len() > 0 {
        let rest = regions.drop_first();
        assert(col < regions[0].start || col >= regions[0].end);
        assert forall|i: int| 0 <= i < rest.len() implies col < (#[trigger] rest[i]).start || col
            >= rest[i].end by {
            assert(rest[i] == regions[i + 1]);
        }
        lemma_no_region(rest, col);
    }
}

/// A table has a border, and a line of titles above its lines; the markers take
/// the first five columns of the lines. A click on one of those hits the marker
/// of the row, and no other click does.
pub proof fn markers_take_the_first_columns(
    map: MouseMapView,
    area: Rect,
    offset: int,
    line_rows: Seq<Option<usize>>,
    col: u16,
    row: u16,
)
    requires
        area.fits(),
        area.width >= 2,
        area.height >= 3,
    ensures
        table_data(area) == (Rect {
            x: (area.x + 1) as u16,
            y: (area.y + 2) as u16,
            width: (area.width - 2) as u16,
            height: (area.height - 3) as u16,
        }),
        map.with_table(area, offset, line_rows).hit_marker(col, row) == if col < area.x + 6 {
            map.with_table(area, offset, line_rows).hit_row(col, row)
        } else {
            None
        },
        map.with_table(area, offset, line_rows).regions == map.regions,
        map.with_table(area, offset, line_rows).bar_y == map.bar_y,
{
}

/// Noting where the bar was drawn keeps where the table was.
pub proof fn noting_the_bar_keeps_the_table(
    map: MouseMapView,
    y: u16,
    regions: Seq<Region>,
    col: u16,
    row: u16,
)
    ensures
        map.with_bar(y, regions).hit_row(col, row) == map.hit_row(col, row),
        map.with_bar(y, regions).hit_marker(col, row) == map.hit_marker(col, row),
        map.with_bar(y, regions).regions == regions,
        map.with_bar(y, regions).bar_y == y,
{
}

}
