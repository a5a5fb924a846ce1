//! The popup of an open prompt: what it says, and where it stands.
use vstd::prelude::*;
use vstd::string::*;
use crate::app::{Prompt, PromptView};
use crate::mouse;
use crate::mouse::Rect;
use crate::numbers;
use crate::paint;
use crate::paint::{Ground, Ink, Line, SpanView, Style};
use crate::text;

verus! {

// --- What it says ---

/// The texts of a list with `, ` between them.
pub open spec fn joined(list: Seq<Seq<char>>) -> Seq<char>
    decreases list.len(),
{
    if list.len() == 0 {
        Seq::empty()
    } else if list.len() == 1 {
        list[0]
    } else {
        joined(list.drop_last()) + ", "@ + list.last()
    }
}

/// The first four of the names, and how many more there are.
pub open spec fn preview(names: Seq<Seq<char>>) -> Seq<char> {
    if names.len() > 4 {
        joined(names.take(4)) + ", +"@ + numbers::decimal((names.len() - 4) as nat) + " more"@
    } else {
        joined(names)
    }
}

/// A line without text.
pub open spec fn empty_line() -> Seq<SpanView> {
    Seq::empty()
}

/// The line of an input.
pub open spec fn input_line(buffer: Seq<char>) -> Seq<SpanView> {
    let cyan = paint::inked(Ink::Cyan);
    seq![
        paint::piece("> "@, cyan),
        paint::piece(buffer, paint::inked(Ink::White)),
        paint::piece("█"@, cyan),
    ]
}

/// The keys that an input takes.
pub open spec fn enter_esc_hint() -> Seq<SpanView> {
    let cyan = paint::inked(Ink::Cyan);
    let dim = paint::inked(Ink::DarkGray);
    seq![
        paint::piece("↵"@, cyan),
        paint::piece(" confirm    "@, dim),
        paint::piece("esc"@, cyan),
        paint::piece(" cancel"@, dim),
    ]
}

/// The keys that the question takes.
pub open spec fn delete_hint() -> Seq<SpanView> {
    let cyan = paint::inked(Ink::Cyan);
    let dim = paint::inked(Ink::DarkGray);
    seq![
        paint::piece("y"@, cyan),
        paint::piece(" delete    "@, dim),
        paint::piece("n"@, cyan),
        paint::piece("/"@, dim),
        paint::piece("esc"@, cyan),
        paint::piece(" cancel"@, dim),
    ]
}

/// The keys that the choice takes.
pub open spec fn choice_hint() -> Seq<SpanView> {
    let cyan = paint::inked(Ink::Cyan);
    let dim = paint::inked(Ink::DarkGray);
    seq![
        paint::piece("↑↓"@, cyan),
        paint::piece(" pick    "@, dim),
        paint::piece("↵"@, cyan),
        paint::piece(" confirm    "@, dim),
        paint::piece("esc"@, cyan),
        paint::piece(" cancel"@, dim),
    ]
}

/// What the question asks about.
pub open spec fn delete_question(what: Seq<char>) -> Seq<SpanView> {
    seq![
        paint::piece("Delete "@, paint::plain()),
        paint::piece(what, paint::inked(Ink::Magenta)),
        paint::piece("?"@, paint::plain()),
    ]
}

/// How many sessions, in words.
pub open spec fn session_count(count: nat) -> Seq<char> {
    numbers::decimal(count) + " sessions"@
}

/// The lines of the question whether to delete.
pub open spec fn delete_body(names: Seq<Seq<char>>) -> Seq<Seq<SpanView>> {
    if names.len() == 1 {
        seq![delete_question(names[0]), empty_line(), delete_hint()]
    } else {
        seq![
            delete_question(session_count(names.len())),
            seq![paint::piece(preview(names), paint::inked(Ink::DarkGray))],
            empty_line(),
            delete_hint(),
        ]
    }
}

/// The lines of the input of a new name.
pub open spec fn rename_body(from: Seq<char>, buffer: Seq<char>) -> Seq<Seq<SpanView>> {
    let dim = paint::inked(Ink::DarkGray);
    seq![
        seq![paint::piece("renaming "@, dim), paint::piece(from, dim)],
        empty_line(),
        input_line(buffer),
        empty_line(),
        enter_esc_hint(),
    ]
}

/// The lines of the input of the name of a new session.
pub open spec fn new_session_body(buffer: Seq<char>) -> Seq<Seq<SpanView>> {
    seq![
        seq![paint::piece("name as project/name"@, paint::inked(Ink::DarkGray))],
        empty_line(),
        input_line(buffer),
        empty_line(),
        enter_esc_hint(),
    ]
}

/// What moves.
pub open spec fn move_label(names: Seq<Seq<char>>) -> Seq<char> {
    if names.len() == 1 {
        "move "@ + names[0]
    } else {
        "move "@ + session_count(names.len())
    }
}

/// A project to move to.
pub open spec fn candidate_line(project: Seq<char>, chosen: bool) -> Seq<SpanView> {
    if chosen {
        seq![
            paint::piece("› "@, paint::inked(Ink::Cyan)),
            paint::piece(
                project,
                Style { ink: Ink::White, ground: Ground::Blue, bold: true },
            ),
        ]
    } else {
        seq![
            paint::piece("  "@, paint::plain()),
            paint::piece(project, paint::inked(Ink::White)),
        ]
    }
}

/// The projects to move to, the chosen one highlighted.
pub open spec fn candidate_lines(candidates: Seq<Seq<char>>, selected: int) -> Seq<Seq<SpanView>> {
    Seq::new(candidates.len(), |i: int| candidate_line(candidates[i], i == selected))
}

/// The lines of the choice of a target project.
pub open spec fn move_body(
    names: Seq<Seq<char>>,
    candidates: Seq<Seq<char>>,
    selected: int,
) -> Seq<Seq<SpanView>> {
    seq![seq![paint::piece(move_label(names), paint::inked(Ink::DarkGray))], empty_line()]
        + candidate_lines(candidates, selected) + seq![empty_line(), choice_hint()]
}

/// The title of a prompt.
pub open spec fn prompt_title(prompt: PromptView) -> Seq<char> {
    match prompt {
        PromptView::ConfirmDelete { .. } => "Delete"@,
        PromptView::Rename { .. } => "Rename"@,
        PromptView::MoveTo { .. } => "Move to project"@,
        PromptView::NewSession { .. } => "New session"@,
        PromptView::Closed => Seq::empty(),
    }
}

/// The lines of a prompt.
pub open spec fn prompt_body(prompt: PromptView) -> Seq<Seq<SpanView>> {
    match prompt {
        PromptView::ConfirmDelete { names } => delete_body(names),
        PromptView::Rename { old: from, buffer } => rename_body(from, buffer),
        PromptView::MoveTo { names, candidates, selected } => move_body(
            names,
            candidates,
            selected,
        ),
        PromptView::NewSession { buffer } => new_session_body(buffer),
        PromptView::Closed => Seq::empty(),
    }
}

/// The first `count` texts of a list with `, ` between them.
fn join(list: &Vec<String>, count: usize) -> (r: String)
    requires
        count <= list.len(),
    ensures
        r@ == joined(text::texts(list@).take(count as int)),
{
    let ghost all = text::texts(list@);
    let mut out = String::new();
    let mut i: usize = 0;
    assert(out@ =~= joined(all.take(0)));
    while i < count
        invariant
            i <= count <= list.len(),
            all == text::texts(list@),
            out@ == joined(all.take(i as int)),
        decreases count - i,
    {
        let ghost now = all.take(i + 1);
        assert(now.drop_last() =~= all.take(i as int));
        assert(now.last() == list@[i as int]@);
        let ghost before = out@;
        if i > 0 {
            out.append(", ");
        }
        out.append(list[i].as_str());
        assert(out@ =~= joined(now));
        i += 1;
    }
    out
}

/// The first four of the names, and how many more there are.
fn make_preview(names: &Vec<String>) -> (r: String)
    ensures
        r@ == preview(text::texts(names@)),
{
    if names.len() > 4 {
        let mut out = join(names, 4);
        out.append(", +");
        out.append(numbers::count_text(names.len() - 4).as_str());
        out.append(" more");
        out
    } else {
        assert(text::texts(names@).take(names.len() as int) =~= text::texts(names@));
        join(names, names.len())
    }
}

/// Adds a line at the end.
fn push_line(body: &mut Vec<Line>, line: Line)
    ensures
        paint::line_views(final(body)@) == paint::line_views(old(body)@).push(line@),
{
    let ghost before = paint::line_views(body@);
    body.push(line);
    assert(paint::line_views(body@) =~= before.push(line@));
}

/// The line of an input.
fn make_input_line(buffer: &str) -> (r: Line)
    ensures
        r@ == input_line(buffer@),
{
    let mut line = Line::of("> ", paint::inked(Ink::Cyan));
    line.put(buffer, paint::inked(Ink::White));
    line.put("█", paint::inked(Ink::Cyan));
    assert(line@ =~= input_line(buffer@));
    line
}

/// The keys that an input takes.
fn make_enter_esc_hint() -> (r: Line)
    ensures
        r@ == enter_esc_hint(),
{
    let mut line = Line::of("↵", paint::inked(Ink::Cyan));
    line.put(" confirm    ", paint::inked(Ink::DarkGray));
    line.put("esc", paint::inked(Ink::Cyan));
    line.put(" cancel", paint::inked(Ink::DarkGray));
    assert(line@ =~= enter_esc_hint());
    line
}

/// What the question asks about.
fn make_delete_question(what: &str) -> (r: Line)
    ensures
        r@ == delete_question(what@),
{
    let mut line = Line::of("Delete ", paint::plain());
    line.put(what, paint::inked(Ink::Magenta));
    line.put("?", paint::plain());
    assert(line@ =~= delete_question(what@));
    line
}

/// How many sessions, in words.
fn make_session_count(count: usize) -> (r: String)
    ensures
        r@ == session_count(count as nat),
{
    let mut out = numbers::count_text(count);
    out.append(" sessions");
    out
}

/// The lines of the question whether to delete.
fn make_delete_body(names: &Vec<String>) -> (r: Vec<Line>)
    ensures
        paint::line_views(r@) == delete_body(text::texts(names@)),
{
    let cyan = paint::inked(Ink::Cyan);
    let dim = paint::inked(Ink::DarkGray);
    let mut body: Vec<Line> = Vec::new();
    assert(paint::line_views(body@) =~= Seq::empty());
    if names.len() == 1 {
        assert(text::texts(names@)[0] == names@[0]@);
        push_line(&mut body, make_delete_question(names[0].as_str()));
    } else {
        push_line(&mut body, make_delete_question(make_session_count(names.len()).as_str()));
        push_line(&mut body, Line::of(make_preview(names).as_str(), dim));
    }
    push_line(&mut body, Line::new());
    let mut keys = Line::of("y", cyan);
    keys.put(" delete    ", dim);
    keys.put("n", cyan);
    keys.put("/", dim);
    keys.put("esc", cyan);
    keys.put(" cancel", dim);
    assert(keys@ =~= delete_hint());
    push_line(&mut body, keys);
    assert(paint::line_views(body@) =~= delete_body(text::texts(names@)));
    body
}

/// The lines of an input below the given one.
fn make_input_body(head: Line, buffer: &str) -> (r: Vec<Line>)
    ensures
        paint::line_views(r@) == seq![
            head@,
            empty_line(),
            input_line(buffer@),
            empty_line(),
            enter_esc_hint(),
        ],
{
    let mut body: Vec<Line> = Vec::new();
    assert(paint::line_views(body@) =~= Seq::empty());
    push_line(&mut body, head);
    push_line(&mut body, Line::new());
    push_line(&mut body, make_input_line(buffer));
    push_line(&mut body, Line::new());
    push_line(&mut body, make_enter_esc_hint());
    assert(paint::line_views(body@) =~= seq![
        head@,
        empty_line(),
        input_line(buffer@),
        empty_line(),
        enter_esc_hint(),
    ]);
    body
}

/// What moves.
fn make_move_label(names: &Vec<String>) -> (r: String)
    ensures
        r@ == move_label(text::texts(names@)),
{
    let mut out = "move ".to_string();
    if names.len() == 1 {
        assert(text::texts(names@)[0] == names@[0]@);
        out.append(names[0].as_str());
    } else {
        out.append(make_session_count(names.len()).as_str());
    }
    out
}

/// A project to move to.
fn make_candidate_line(project: &str, chosen: bool) -> (r: Line)
    ensures
        r@ == candidate_line(project@, chosen),
{
    let mut line = Line::new();
    if chosen {
        line.put("› ", paint::inked(Ink::Cyan));
        line.put(project, Style { ink: Ink::White, ground: Ground::Blue, bold: true });
    } else {
        line.put("  ", paint::plain());
        line.put(project, paint::inked(Ink::White));
    }
    assert(line@ =~= candidate_line(project@, chosen));
    line
}

/// The lines of the choice of a target project.
fn make_move_body(names: &Vec<String>, candidates: &Vec<String>, selected: usize) -> (r: Vec<Line>)
    ensures
        paint::line_views(r@) == move_body(
            text::texts(names@),
            text::texts(candidates@),
            selected as int,
        ),
{
    let cyan = paint::inked(Ink::Cyan);
    let dim = paint::inked(Ink::DarkGray);
    let ghost all = text::texts(candidates@);
    let ghost lines = candidate_lines(all, selected as int);
    let ghost head = seq![seq![paint::piece(move_label(text::texts(names@)), dim)], empty_line()];
    let mut body: Vec<Line> = Vec::new();
    assert(paint::line_views(body@) =~= Seq::empty());
    push_line(&mut body, Line::of(make_move_label(names).as_str(), dim));
    push_line(&mut body, Line::new());
    let mut i: usize = 0;
    assert(paint::line_views(body@) =~= head + lines.take(0));
    while i < candidates.len()
        invariant
            i <= candidates.len(),
            all == text::texts(candidates@),
            lines == candidate_lines(all, selected as int),
            paint::line_views(body@) == head + lines.take(i as int),
        decreases candidates.len() - i,
    {
        assert(all[i as int] == candidates@[i as int]@);
        let line = make_candidate_line(candidates[i].as_str(), i == selected);
        push_line(&mut body, line);
        assert(lines[i as int] == line@);
        assert(head + lines.take(i as int).push(line@) =~= (head + lines.take(i as int)).push(
            line@,
        ));
        assert(lines.take(i + 1) =~= lines.take(i as int).push(line@));
        i += 1;
    }
    assert(lines.take(i as int) =~= lines);
    push_line(&mut body, Line::new());
    let mut keys = Line::of("↑↓", cyan);
    keys.put(" pick    ", dim);
    keys.put("↵", cyan);
    keys.put(" confirm    ", dim);
    keys.put("esc", cyan);
    keys.put(" cancel", dim);
    assert(keys@ =~= choice_hint());
    push_line(&mut body, keys);
    assert(paint::line_views(body@) =~= move_body(text::texts(names@), all, selected as int));
    body
}

/// The title and the lines of an open prompt.
fn prompt_text(prompt: &Prompt) -> (r: Option<(String, Vec<Line>)>)
    ensures
        match r {
            Some((title, body)) => {
                &&& !(prompt@ is Closed)
                &&& title@ == prompt_title(prompt@)
                &&& paint::line_views(body@) == prompt_body(prompt@)
            },
            None => prompt@ is Closed,
        },
{
    match prompt {
        Prompt::ConfirmDelete { names } => Some(("Delete".to_string(), make_delete_body(names))),
        Prompt::Rename { old: from, buffer } => {
            let dim = paint::inked(Ink::DarkGray);
            let mut head = Line::of("renaming ", dim);
            head.put(from.as_str(), dim);
            assert(head@ =~= seq![paint::piece("renaming "@, dim), paint::piece(from@, dim)]);
            Some(("Rename".to_string(), make_input_body(head, buffer.as_str())))
        },
        Prompt::MoveTo { names, candidates, selected } => Some(
            ("Move to project".to_string(), make_move_body(names, candidates, *selected)),
        ),
        Prompt::NewSession { buffer } => {
            let head = Line::of("name as project/name", paint::inked(Ink::DarkGray));
            Some(("New session".to_string(), make_input_body(head, buffer.as_str())))
        },
        Prompt::Closed => None,
    }
}

// --- Where it stands ---

/// The rectangle of the given size in an area, or as much of it as fits:
/// centred from side to side, in the upper third from top to bottom.
pub open spec fn centered_in(area: Rect, width: u16, height: u16) -> Rect {
    let w = if width < area.width {
        width
    } else {
        area.width
    };
    let h = if height < area.height {
        height
    } else {
        area.height
    };
    Rect {
        x: (area.x + (area.width - w) / 2) as u16,
        y: (area.y + (area.height - h) / 3) as u16,
        width: w,
        height: h,
    }
}

/// The rectangle of the given size in an area, or as much of it as fits. Its
/// corner has coordinates.
pub fn centered(area: Rect, w: u16, h: u16) -> (r: Rect)
    requires
        w < area.width ==> area.x + (area.width - w) / 2 <= u16::MAX,
        h < area.height ==> area.y + (area.height - h) / 3 <= u16::MAX,
    ensures
        r == centered_in(area, w, h),
        r.inside(area),
{
    let w = if w < area.width {
        w
    } else {
        area.width
    };
    let h = if h < area.height {
        h
    } else {
        area.height
    };
    Rect {
        x: area.x + (area.width - w) / 2,
        y: area.y + (area.height - h) / 3,
        width: w,
        height: h,
    }
}

/// The largest number of a list and `least`.
pub open spec fn widest(widths: Seq<usize>, least: int) -> int
    decreases widths.len(),
{
    if widths.len() == 0 {
        least
    } else {
        let rest = widest(widths.drop_last(), least);
        if widths.last() > rest {
            widths.last() as int
        } else {
            rest
        }
    }
}

/// How many columns the text of a popup takes: as many as the widest line, and
/// at least 38.
pub open spec fn content_width(widths: Seq<usize>, title: Seq<char>) -> int {
    widest(
        widths,
        if title.len() > 38 {
            title.len() as int
        } else {
            38
        },
    )
}

/// Where a popup with lines of the given widths stands in an area: wide enough
/// for its text, its border and a blank on either side, but two columns from
/// either side of the area, and as high as its lines and its border, where the
/// area has as many rows.
pub open spec fn popup_area(area: Rect, widths: Seq<usize>, title: Seq<char>) -> Rect {
    let content = content_width(widths, title) + 4;
    let limit = mouse::saturating_difference(area.width, 4);
    let width = if content < limit {
        content
    } else {
        limit as int
    };
    let height = if widths.len() + 2 < area.height {
        widths.len() as int + 2
    } else {
        area.height as int
    };
    centered_in(area, width as u16, height as u16)
}

/// How many columns the text of a popup takes.
fn max_width(widths: &Vec<usize>, title: &str) -> (r: usize)
    ensures
        r == content_width(widths@, title@),
{
    let length = text::char_list(title).len();
    let least: usize = if length > 38 {
        length
    } else {
        38
    };
    let mut max: usize = least;
    let mut i: usize = 0;
    assert(widths@.take(0) =~= Seq::empty());
    while i < widths.len()
        invariant
            i <= widths.len(),
            max == widest(widths@.take(i as int), least as int),
        decreases widths.len() - i,
    {
        assert(widths@.take(i + 1).drop_last() =~= widths@.take(i as int));
        assert(widths@.take(i + 1).last() == widths@[i as int]);
        if widths[i] > max {
            max = widths[i];
        }
        i += 1;
    }
    assert(widths@.take(i as int) =~= widths@);
    max
}

/// Where a popup with lines of the given widths stands in an area.
pub fn place_popup(area: Rect, widths: &Vec<usize>, title: &str) -> (r: Rect)
    requires
        area.fits(),
    ensures
        r == popup_area(area, widths@, title@),
        r.inside(area),
{
    let content = max_width(widths, title);
    let limit = mouse::minus_capped(area.width, 4);
    let width: u16 = if content < limit as usize && content + 4 < limit as usize {
        content as u16 + 4
    } else {
        limit
    };
    let lines = widths.len();
    let height: u16 = if lines < area.height as usize && lines + 2 < area.height as usize {
        lines as u16 + 2
    } else {
        area.height
    };
    centered(area, width, height)
}

/// How many columns a line takes when it is drawn.
pub uninterp spec fn shown_width(line: Seq<SpanView>) -> usize;

/// How many columns a line takes when it is drawn: what `Line::width` of
/// ratatui counts for the same texts in the same order. Nothing else is
/// claimed of the number, which goes by the width that Unicode gives each
/// text.
#[verifier::external_body]
fn line_width(line: &Line) -> (r: usize)
    ensures
        r == shown_width(line@),
{
    let spans = line.spans.iter().map(|s| ratatui::text::Span::raw(s.text.as_str()));
    ratatui::text::Line::from(spans.collect::<Vec<ratatui::text::Span>>()).width()
}

/// How many columns each line of a prompt takes.
pub open spec fn body_widths(prompt: PromptView) -> Seq<usize> {
    prompt_body(prompt).map_values(|line: Seq<SpanView>| shown_width(line))
}

/// A popup.
pub struct Popup {
    pub area: Rect,
    pub title: String,
    pub body: Vec<Line>,
}

/// Whether a popup is that of a prompt: there is one where the prompt is open.
pub open spec fn is_popup_of(popup: Option<Popup>, prompt: PromptView, area: Rect) -> bool {
    let widths = body_widths(prompt);
    let title = prompt_title(prompt);
    match popup {
        Some(popup) => {
            &&& !(prompt is Closed)
            &&& popup.title@ == " "@ + title + " "@
            &&& paint::line_views(popup.body@) == prompt_body(prompt)
            &&& popup.area == popup_area(area, widths, title)
        },
        None => prompt is Closed,
    }
}

/// The popup of an open prompt.
pub fn render_prompt(prompt: &Prompt, area: Rect) -> (r: Option<Popup>)
    requires
        area.fits(),
    ensures
        is_popup_of(r, prompt@, area),
{
    let (title, body) = match prompt_text(prompt) {
        Some(text) => text,
        None => {
            return None;
        },
    };
    let ghost all = body_widths(prompt@);
    let mut widths: Vec<usize> = Vec::new();
    let mut i: usize = 0;
    while i < body.len()
        invariant
            i <= body.len(),
            paint::line_views(body@) == prompt_body(prompt@),
            all == body_widths(prompt@),
            widths@ == all.take(i as int),
        decreases body.len() - i,
    {
        assert(paint::line_views(body@)[i as int] == body@[i as int]@);
        assert(all[i as int] == shown_width(body@[i as int]@));
        widths.push(line_width(&body[i]));
        assert(widths@ =~= all.take(i + 1));
        i += 1;
    }
    assert(paint::line_views(body@).len() == body.len());
    assert(all.take(i as int) =~= all);
    let place = place_popup(area, &widths, title.as_str());
    let mut shown = " ".to_string();
    shown.append(title.as_str());
    shown.append(" ");
    Some(Popup { area: place, title: shown, body })
}

// --- Laws ---

/// A popup lies within the area, and where the area is wide enough, two
/// columns from either side.
pub proof fn popups_lie_in_the_area(area: Rect, widths: Seq<usize>, title: Seq<char>)
    requires
        area.fits(),
    ensures
        popup_area(area, widths, title).inside(area),
        area.width >= 4 ==> popup_area(area, widths, title).x >= area.x + 2,
        area.width >= 4 ==> popup_area(area, widths, title).x + popup_area(
            area,
            widths,
            title,
        ).width <= area.x + area.width - 2,
{
    lemma_widest(widths, 38);
    lemma_widest(widths, title.len() as int);
}

/// The widest is at least the least, and at least each of the list.
proof fn lemma_widest(widths: Seq<usize>, least: int)
    ensures
        widest(widths, least) >= least,
        forall|i: int| 0 <= i < widths.len() ==> widest(widths, least) >= #[trigger] widths[i],
    decreases widths.len(),
{
    if widths.len() > 0 {
        lemma_widest(widths.drop_last(), least);
        assert forall|i: int| 0 <= i < widths.len() implies widest(widths, least)
            >= #[trigger] widths[i] by {
            if i < widths.len() - 1 {
                assert(widths.drop_last()[i] == widths[i]);
            }
        }
    }
}

/// The text of a popup has room: where the area is wide enough, every line fits
/// between the borders of the popup, with a blank on either side.
pub proof fn popups_have_room(area: Rect, widths: Seq<usize>, title: Seq<char>, i: int)
    requires
        area.fits(),
        0 <= i < widths.len(),
        content_width(widths, title) + 8 <= area.width,
    ensures
        popup_area(area, widths, title).width == content_width(widths, title) + 4,
        widths[i] + 4 <= popup_area(area, widths, title).width,
{
    lemma_widest(
        widths,
        if title.len() > 38 {
            title.len() as int
        } else {
            38
        },
    );
}

/// Exactly one of the offered projects is shown as chosen, where the choice
/// stands on one.
pub proof fn one_project_is_chosen(candidates: Seq<Seq<char>>, selected: int, i: int)
    requires
        0 <= selected < candidates.len(),
        0 <= i < candidates.len(),
    ensures
        candidate_lines(candidates, selected).len() == candidates.len(),
        (candidate_lines(candidates, selected)[i] == candidate_line(candidates[i], true)) <==> i
            == selected,
{
    reveal_strlit("› ");
    reveal_strlit("  ");
    let line = candidate_lines(candidates, selected)[i];
    assert(line[1].style.bold == (i == selected));
    assert(candidate_line(candidates[i], true)[1].style.bold);
}

/// The names of two lists together are listed as those of the first, a comma and
/// a blank, and those of the second; one name is listed as it is.
pub proof fn names_are_listed_in_turn(a: Seq<Seq<char>>, b: Seq<Seq<char>>, name: Seq<char>)
    requires
        a.len() > 0,
        b.len() > 0,
    ensures
        joined(a + b) == joined(a) + ", "@ + joined(b),
        joined(seq![name]) == name,
    decreases b.len(),
{
    if b.len() == 1 {
        assert((a + b).drop_last() =~= a);
        assert((a + b).last() == b[0]);
    } else {
        let rest = b.drop_last();
        names_are_listed_in_turn(a, rest, name);
        assert((a + b).drop_last() =~= a + rest);
        assert((a + b).last() == b.last());
        assert(joined(a) + ", "@ + joined(rest) + ", "@ + b.last() =~= joined(a) + ", "@ + (joined(
            rest,
        ) + ", "@ + b.last()));
    }
}

/// Of up to four names all are listed; of more, the first four and how many
/// there are besides.
pub proof fn few_names_are_all_listed(names: Seq<Seq<char>>, more: Seq<Seq<char>>)
    ensures
        names.len() <= 4 ==> preview(names) == joined(names),
        names.len() == 4 && more.len() > 0 ==> preview(names + more) == joined(names) + ", +"@
            + numbers::decimal(more.len()) + " more"@,
{
    if names.len() == 4 {
        assert((names + more).take(4) =~= names);
    }
}

/// A popup is as wide as its widest line or its title needs, and at least as a
/// short text; it needs no more than one of these.
pub proof fn popups_are_as_wide_as_they_need(widths: Seq<usize>, title: Seq<char>)
    ensures
        content_width(widths, title) >= 38,
        content_width(widths, title) >= title.len(),
        forall|i: int|
            0 <= i < widths.len() ==> content_width(widths, title) >= #[trigger] widths[i],
        content_width(widths, title) == 38 || content_width(widths, title) == title.len() || exists|
            i: int,
        |
            0 <= i < widths.len() && content_width(widths, title) == #[trigger] widths[i],
{
    let least = if title.len() > 38 {
        title.len() as int
    } else {
        38
    };
    lemma_widest(widths, least);
    lemma_widest_attained(widths, least);
}

/// The widest is the least or one of the list.
proof fn lemma_widest_attained(widths: Seq<usize>, least: int)
    ensures
        widest(widths, least) == least || exists|i: int|
            0 <= i < widths.len() && widest(widths, least) == #[trigger] widths[i],
    decreases widths.len(),
{
    if widths.len() > 0 {
        let rest = widths.drop_last();
        lemma_widest_attained(rest, least);
        if widest(widths, least) == widest(rest, least) {
            if widest(rest, least) != least {
                let i = choose|i: int|
                    0 <= i < rest.len() && widest(rest, least) == #[trigger] rest[i];
                assert(widths[i] == rest[i]);
            }
        } else {
            assert(widths[widths.len() - 1] == widths.last());
        }
    }
}

/// A popup stands in the middle of the area from left to right, to one column,
/// and leaves a third of the rows that are left above it. It is as wide as it
/// needs for its text, its border and a blank on either side, and as high as its
/// lines and its border, as far as the area goes.
pub proof fn popups_stand_in_the_middle(area: Rect, widths: Seq<usize>, title: Seq<char>)
    requires
        area.fits(),
        area.width >= 4,
    ensures
        ({
            let popup = popup_area(area, widths, title);
            let left = popup.x - area.x;
            let right = area.x + area.width - (popup.x + popup.width);
            let above = popup.y - area.y;
            let below = area.y + area.height - (popup.y + popup.height);
            let wide = content_width(widths, title) + 4;
            &&& left <= right <= left + 1
            &&& 2 * above <= below <= 2 * above + 2
            &&& popup.width == if wide <= area.width - 4 {
                wide
            } else {
                area.width - 4
            }
            &&& popup.height == if widths.len() + 2 <= area.height {
                widths.len() as int + 2
            } else {
                area.height as int
            }
        }),
{
    lemma_widest(
        widths,
        if title.len() > 38 {
            title.len() as int
        } else {
            38
        },
    );
}

/// Each prompt shows what it is about: the question the session, or how many and
/// which; an input what was typed, and a renaming the old name too; the choice
/// every project that is offered, in its order.
pub proof fn prompts_show_what_they_are_about(prompt: PromptView)
    ensures
        prompt matches PromptView::ConfirmDelete { names } ==> {
            &&& names.len() == 1 ==> prompt_body(prompt)[0][1].text == names[0]
            &&& names.len() != 1 ==> prompt_body(prompt)[0][1].text == numbers::decimal(names.len())
                + " sessions"@ && prompt_body(prompt)[1][0].text == preview(names)
        },
        prompt matches PromptView::Rename { old: from, buffer } ==> prompt_body(prompt)[0][1].text
            == from && prompt_body(prompt)[2][1].text == buffer,
        prompt matches PromptView::NewSession { buffer } ==> prompt_body(prompt)[2][1].text
            == buffer,
        prompt matches PromptView::MoveTo { names, candidates, selected } ==> {
            &&& prompt_body(prompt).len() == candidates.len() + 4
            &&& forall|i: int|
                0 <= i < candidates.len() ==> (#[trigger] prompt_body(prompt)[i + 2]).len() == 2
                    && prompt_body(prompt)[i + 2][1].text == candidates[i]
            &&& names.len() == 1 ==> prompt_body(prompt)[0][0].text == "move "@ + names[0]
            &&& names.len() != 1 ==> prompt_body(prompt)[0][0].text == "move "@ + (
            numbers::decimal(names.len()) + " sessions"@)
        },
{
}

/// A rectangle has the size that is asked for, as far as the area goes. It stands
/// in the middle from left to right, to one column, and leaves a third of the
/// rows that are left above it.
pub proof fn rectangles_stand_in_the_middle(area: Rect, width: u16, height: u16)
    requires
        area.fits(),
    ensures
        ({
            let r = centered_in(area, width, height);
            let left = r.x - area.x;
            let right = area.x + area.width - (r.x + r.width);
            let above = r.y - area.y;
            let below = area.y + area.height - (r.y + r.height);
            &&& width <= area.width ==> r.width == width
            &&& width > area.width ==> r.width == area.width
            &&& height <= area.height ==> r.height == height
            &&& height > area.height ==> r.height == area.height
            &&& 0 <= left <= right <= left + 1
            &&& 0 <= 2 * above <= below <= 2 * above + 2
        }),
{
}

}
