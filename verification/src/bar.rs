//! The lines round the table: the title above it, the action bar and the hint
//! below.
use vstd::prelude::*;
use vstd::string::*;
use crate::app;
use crate::app::{Action, App};
use crate::mouse;
use crate::mouse::{Region, Segment};
use crate::numbers;
use crate::paint;
use crate::paint::{Ink, Line, SpanView};
use crate::text;

verus! {

// --- The title ---

/// The title: the host, and what is known of archived sessions.
pub open spec fn title_line(
    host_short: Seq<char>,
    show_archived: bool,
    archived_count: nat,
) -> Seq<SpanView> {
    let host = seq![
        paint::piece("  "@, paint::plain()),
        paint::piece("⚡ tmux :: "@, paint::inked(Ink::Magenta)),
        paint::piece(host_short, paint::bold(Ink::Cyan)),
    ];
    if show_archived {
        host.push(paint::piece("   [ARCHIVED VIEW]"@, paint::bold(Ink::Yellow)))
    } else if archived_count > 0 {
        host.push(
            paint::piece(
                "   ("@ + numbers::decimal(archived_count) + " archived · ^A)"@,
                paint::inked(Ink::DarkGray),
            ),
        )
    } else {
        host
    }
}

/// The title.
pub fn render_title(host_short: &str, show_archived: bool, archived_count: usize) -> (r: Line)
    ensures
        r@ == title_line(host_short@, show_archived, archived_count as nat),
{
    let mut line = Line::of("  ", paint::plain());
    line.put("⚡ tmux :: ", paint::inked(Ink::Magenta));
    line.put(host_short, paint::bold(Ink::Cyan));
    if show_archived {
        line.put("   [ARCHIVED VIEW]", paint::bold(Ink::Yellow));
    } else if archived_count > 0 {
        let mut note = "   (".to_string();
        note.append(numbers::count_text(archived_count).as_str());
        note.append(" archived · ^A)");
        line.put(note.as_str(), paint::inked(Ink::DarkGray));
    }
    assert(line@ =~= title_line(host_short@, show_archived, archived_count as nat));
    line
}

// --- The action bar ---

/// The parts of the bar: the actions in the order of the cycle, and before the
/// last the way to the archive, or where the archived sessions are shown, out
/// of it.
pub open spec fn bar_segments(show_archived: bool) -> Seq<Segment> {
    seq![
        Segment::Run(Action::Attach),
        Segment::Run(Action::Rename),
        Segment::Run(Action::Move),
        if show_archived {
            Segment::Unarchive
        } else {
            Segment::Archive
        },
        Segment::Run(Action::Delete),
    ]
}

/// Whether a part of the bar is for all picked sessions.
pub open spec fn is_bulk(segment: Segment) -> bool {
    match segment {
        Segment::Run(action) => action is Delete || action is Move,
        _ => true,
    }
}

/// The word for a part of the bar.
pub open spec fn verb(segment: Segment) -> Seq<char> {
    match segment {
        Segment::Run(action) => app::action_label(action),
        Segment::Archive => "archive"@,
        Segment::Unarchive => "unarchive"@,
    }
}

/// What a part of the bar says: its word, and how many sessions are picked
/// where it is for them all.
pub open spec fn segment_text(segment: Segment, picked: nat) -> Seq<char> {
    if picked > 0 && is_bulk(segment) {
        "  "@ + verb(segment) + " "@ + numbers::decimal(picked) + "  "@
    } else {
        "  "@ + verb(segment) + "  "@
    }
}

/// How many columns the bar takes for a list of parts: two before the first,
/// one between two.
pub open spec fn bar_width(segments: Seq<Segment>, picked: nat) -> int
    decreases segments.len(),
{
    if segments.len() == 0 {
        2
    } else {
        segment_start(segments, picked) + segment_text(segments.last(), picked).len()
    }
}

/// Where the last part of a list starts in the bar.
pub open spec fn segment_start(segments: Seq<Segment>, picked: nat) -> int
    decreases segments.len(), 0int,
    when segments.len() > 0
{
    bar_width(segments.drop_last(), picked) + if segments.len() > 1 {
        1int
    } else {
        0
    }
}

/// The texts of the bar for a list of parts, the current action highlighted.
pub open spec fn bar_spans(segments: Seq<Segment>, current: Action, picked: nat) -> Seq<SpanView>
    decreases segments.len(),
{
    if segments.len() == 0 {
        seq![paint::piece("  "@, paint::plain())]
    } else {
        let above = bar_spans(segments.drop_last(), current, picked);
        let segment = segments.last();
        let text = paint::piece(
            segment_text(segment, picked),
            if segment == Segment::Run(current) {
                paint::highlighted()
            } else {
                paint::inked(Ink::DarkGray)
            },
        );
        if segments.len() > 1 {
            above.push(paint::piece("│"@, paint::inked(Ink::DarkGray))).push(text)
        } else {
            above.push(text)
        }
    }
}

/// The clickable parts of a bar that starts in column `x`.
pub open spec fn bar_regions(segments: Seq<Segment>, x: u16, picked: nat) -> Seq<Region>
    decreases segments.len(),
{
    if segments.len() == 0 {
        Seq::empty()
    } else {
        bar_regions(segments.drop_last(), x, picked).push(
            Region {
                start: (x + segment_start(segments, picked)) as u16,
                end: (x + bar_width(segments, picked)) as u16,
                segment: segments.last(),
            },
        )
    }
}

/// The whole bar: behind the parts stands how many sessions are picked.
pub open spec fn bar_line(current: Action, picked: nat, show_archived: bool) -> Seq<SpanView> {
    let parts = bar_spans(bar_segments(show_archived), current, picked);
    if picked > 0 {
        parts.push(paint::piece("  "@, paint::plain())).push(
            paint::piece(
                "✓ "@ + numbers::decimal(picked) + " selected"@,
                paint::inked(Ink::Yellow),
            ),
        )
    } else {
        parts
    }
}

/// What a part of the bar says.
fn make_segment_text(segment: Segment, picked: usize) -> (r: String)
    ensures
        r@ == segment_text(segment, picked as nat),
{
    let mut label = "  ".to_string();
    let bulk = match segment {
        Segment::Run(action) => {
            label.append(action.label());
            match action {
                Action::Delete => true,
                Action::Move => true,
                _ => false,
            }
        },
        Segment::Archive => {
            label.append("archive");
            true
        },
        Segment::Unarchive => {
            label.append("unarchive");
            true
        },
    };
    if picked > 0 && bulk {
        label.append(" ");
        label.append(numbers::count_text(picked).as_str());
    }
    label.append("  ");
    label
}

/// The action bar.
pub struct ActionBar {
    pub line: Line,
    /// Its clickable parts, from left to right.
    pub regions: Vec<Region>,
}

/// The action bar in column `x`. The bar ends in a column that has a number.
pub fn render_action_bar(app: &App, x: u16, show_archived: bool) -> (r: ActionBar)
    requires
        x + bar_width(bar_segments(show_archived), app@.picked.len()) <= u16::MAX,
    ensures
        r.line@ == bar_line(app@.action, app@.picked.len(), show_archived),
        r.regions@ == bar_regions(bar_segments(show_archived), x, app@.picked.len()),
{
    let picked = app.picked.len();
    let current = app.action;
    let mut segments: Vec<Segment> = Vec::new();
    segments.push(Segment::Run(Action::Attach));
    segments.push(Segment::Run(Action::Rename));
    segments.push(Segment::Run(Action::Move));
    if show_archived {
        segments.push(Segment::Unarchive);
    } else {
        segments.push(Segment::Archive);
    }
    segments.push(Segment::Run(Action::Delete));
    assert(segments@ =~= bar_segments(show_archived));
    let ghost count = picked as nat;
    let ghost all = bar_segments(show_archived);
    let mut line = Line::of("  ", paint::plain());
    let mut regions: Vec<Region> = Vec::new();
    proof {
        lemma_bar_width_grows(all, 0, count);
        assert(all.take(0) =~= Seq::empty());
        assert(line@ =~= bar_spans(all.take(0), current, count));
    }
    let mut col: u16 = x + 2;
    let mut i: usize = 0;
    while i < segments.len()
        invariant
            i <= segments.len(),
            segments@ == all,
            count == picked,
            x + bar_width(all, count) <= u16::MAX,
            col == x + bar_width(all.take(i as int), count),
            line@ == bar_spans(all.take(i as int), current, count),
            regions@ == bar_regions(all.take(i as int), x, count),
        decreases segments.len() - i,
    {
        let segment = segments[i];
        let ghost now = all.take(i + 1);
        proof {
            assert(now.drop_last() =~= all.take(i as int));
            assert(now.last() == segment);
            lemma_bar_width_grows(all, i + 1, count);
        }
        if i > 0 {
            line.put("│", paint::inked(Ink::DarkGray));
            col += 1;
        }
        assert(col == x + segment_start(now, count));
        let label = make_segment_text(segment, picked);
        let width = text::char_list(label.as_str()).len();
        let style = if segment == Segment::Run(current) {
            paint::highlighted()
        } else {
            paint::inked(Ink::DarkGray)
        };
        let end: u16 = col + width as u16;
        regions.push(Region { start: col, end, segment });
        col = end;
        line.put(label.as_str(), style);
        i += 1;
    }
    assert(all.take(i as int) =~= all);
    if picked > 0 {
        let mut note = "✓ ".to_string();
        note.append(numbers::count_text(picked).as_str());
        note.append(" selected");
        line.put("  ", paint::plain());
        line.put(note.as_str(), paint::inked(Ink::Yellow));
    }
    ActionBar { line, regions }
}

/// A longer list of parts takes more columns.
proof fn lemma_bar_width_grows(segments: Seq<Segment>, n: int, picked: nat)
    requires
        0 <= n <= segments.len(),
    ensures
        2 <= bar_width(segments.take(n), picked) <= bar_width(segments, picked),
    decreases segments.len() - n,
{
    lemma_bar_width_positive(segments.take(n), picked);
    if n < segments.len() {
        lemma_bar_width_grows(segments, n + 1, picked);
        assert(segments.take(n + 1).drop_last() =~= segments.take(n));
    } else {
        assert(segments.take(n) =~= segments);
    }
}

/// The bar takes at least the two columns before the first part.
proof fn lemma_bar_width_positive(segments: Seq<Segment>, picked: nat)
    ensures
        bar_width(segments, picked) >= 2,
    decreases segments.len(),
{
    if segments.len() > 0 {
        lemma_bar_width_positive(segments.drop_last(), picked);
    }
}

// --- The hint ---

/// The line below the bar: what is typed into the search, or where there is no
/// search what the keys do.
pub open spec fn hint_line(search: Seq<char>, show_archived: bool) -> Seq<SpanView> {
    let dim = paint::inked(Ink::DarkGray);
    let cyan = paint::inked(Ink::Cyan);
    let plain = paint::plain();
    if search.len() > 0 {
        seq![
            paint::piece("  "@, plain),
            paint::piece(search, cyan),
            paint::piece("█"@, cyan),
            paint::piece("    "@, plain),
            paint::piece("↵"@, dim),
            paint::piece(" run  "@, plain),
            paint::piece("⇥"@, dim),
            paint::piece(" action  "@, plain),
            paint::piece("␣"@, dim),
            paint::piece(" pick  "@, plain),
            paint::piece("esc"@, dim),
            paint::piece(" clear"@, plain),
        ]
    } else {
        seq![
            paint::piece("  "@, plain),
            paint::piece("↑↓/click"@, dim),
            paint::piece(" nav   type to search   "@, plain),
            paint::piece("↵"@, dim),
            paint::piece(" run  "@, plain),
            paint::piece("⇥"@, dim),
            paint::piece(" action  "@, plain),
            paint::piece("␣"@, dim),
            paint::piece(" pick  "@, plain),
            paint::piece("^A"@, dim),
            paint::piece(
                if show_archived {
                    " active"@
                } else {
                    " archived"@
                },
                plain,
            ),
            paint::piece("  "@, plain),
            paint::piece("q"@, dim),
            paint::piece(" quit"@, plain),
        ]
    }
}

/// The hint.
pub fn render_hint(search: &str, show_archived: bool) -> (r: Line)
    ensures
        r@ == hint_line(search@, show_archived),
{
    let dim = paint::inked(Ink::DarkGray);
    let plain = paint::plain();
    let mut line = Line::of("  ", plain);
    if !search.is_empty() {
        line.put(search, paint::inked(Ink::Cyan));
        line.put("█", paint::inked(Ink::Cyan));
        line.put("    ", plain);
        line.put("↵", dim);
        line.put(" run  ", plain);
        line.put("⇥", dim);
        line.put(" action  ", plain);
        line.put("␣", dim);
        line.put(" pick  ", plain);
        line.put("esc", dim);
        line.put(" clear", plain);
    } else {
        line.put("↑↓/click", dim);
        line.put(" nav   type to search   ", plain);
        line.put("↵", dim);
        line.put(" run  ", plain);
        line.put("⇥", dim);
        line.put(" action  ", plain);
        line.put("␣", dim);
        line.put(" pick  ", plain);
        line.put("^A", dim);
        if show_archived {
            line.put(" active", plain);
        } else {
            line.put(" archived", plain);
        }
        line.put("  ", plain);
        line.put("q", dim);
        line.put(" quit", plain);
    }
    assert(line@ =~= hint_line(search@, show_archived));
    line
}

/// The line that says what is going on.
pub open spec fn status_line(status: Seq<char>) -> Seq<SpanView> {
    seq![
        paint::piece("  "@, paint::plain()),
        paint::piece(status, paint::inked(Ink::Yellow)),
    ]
}

/// The line that says what is going on.
pub fn render_status(status: &str) -> (r: Line)
    ensures
        r@ == status_line(status@),
{
    let mut line = Line::of("  ", paint::plain());
    line.put(status, paint::inked(Ink::Yellow));
    assert(line@ =~= status_line(status@));
    line
}

// --- Laws ---

/// The parts of the bar lie apart from each other, from left to right, in the
/// order of the list.
pub proof fn regions_lie_apart(segments: Seq<Segment>, x: u16, picked: nat)
    requires
        x + bar_width(segments, picked) <= u16::MAX,
    ensures
        ({
            let regions = bar_regions(segments, x, picked);
            &&& regions.len() == segments.len()
            &&& forall|i: int|
                0 <= i < regions.len() ==> {
                    &&& (#[trigger] regions[i]).segment == segments[i]
                    &&& x < regions[i].start < regions[i].end <= x + bar_width(segments, picked)
                }
            &&& forall|i: int, j: int|
                0 <= i < j < regions.len() ==> (#[trigger] regions[i]).end < (
                #[trigger] regions[j]).start
        }),
    decreases segments.len(),
{
    if segments.len() > 0 {
        let rest = segments.drop_last();
        lemma_bar_width_positive(rest, picked);
        lemma_segment_text(segments.last(), picked);
        regions_lie_apart(rest, x, picked);
        assert forall|i: int| 0 <= i < rest.len() implies bar_regions(segments, x, picked)[i]
            == bar_regions(rest, x, picked)[i] by {}
    }
}

/// Every part of the bar says something.
proof fn lemma_segment_text(segment: Segment, picked: nat)
    ensures
        segment_text(segment, picked).len() >= 4,
{
    reveal_strlit("  ");
}

/// A click into a part of the bar hits what the part stands for.
pub proof fn clicks_hit_the_drawn_segment(
    x: u16,
    picked: nat,
    show_archived: bool,
    i: int,
    col: u16,
)
    requires
        x + bar_width(bar_segments(show_archived), picked) <= u16::MAX,
        0 <= i < bar_segments(show_archived).len(),
        bar_regions(bar_segments(show_archived), x, picked)[i].start <= col,
        col < bar_regions(bar_segments(show_archived), x, picked)[i].end,
    ensures
        mouse::region_segment(bar_regions(bar_segments(show_archived), x, picked), col) == Some(
            bar_segments(show_archived)[i],
        ),
{
    regions_lie_apart(bar_segments(show_archived), x, picked);
    lemma_region_found(bar_regions(bar_segments(show_archived), x, picked), i, col);
}

/// Where the parts lie apart, a column is in one at most.
proof fn lemma_region_found(regions: Seq<Region>, i: int, col: u16)
    requires
        0 <= i < regions.len(),
        regions[i].start <= col < regions[i].end,
        forall|a: int, b: int|
            0 <= a < b < regions.len() ==> (#[trigger] regions[a]).end < (
            #[trigger] regions[b]).start,
    ensures
        mouse::region_segment(regions, col) == Some(regions[i].segment),
    decreases i,
{
    if i > 0 {
        assert(regions[0].end < regions[i].start);
        let rest = regions.drop_first();
        assert forall|a: int, b: int| 0 <= a < b < rest.len() implies (#[trigger] rest[a]).end < (
        #[trigger] rest[b]).start by {
            assert(rest[a] == regions[a + 1] && rest[b] == regions[b + 1]);
        }
        assert(rest[i - 1] == regions[i]);
        lemma_region_found(rest, i - 1, col);
    }
}

/// The bar takes few columns, however many sessions are picked.
pub proof fn the_bar_is_narrow(picked: nat, show_archived: bool)
    requires
        picked <= u64::MAX,
    ensures
        bar_width(bar_segments(show_archived), picked) <= 120,
{
    reveal_strlit("  ");
    reveal_strlit(" ");
    reveal_strlit("attach");
    reveal_strlit("rename");
    reveal_strlit("move");
    reveal_strlit("archive");
    reveal_strlit("unarchive");
    reveal_strlit("delete");
    assert(vstd::arithmetic::power::pow(10, 20) == 100000000000000000000) by {
        reveal_with_fuel(vstd::arithmetic::power::pow, 21);
    }
    numbers::lemma_decimal_length(picked, 20, 100000000000000000000);
    let five = bar_segments(show_archived);
    let four = five.drop_last();
    let three = four.drop_last();
    let two = three.drop_last();
    let one = two.drop_last();
    assert(bar_width(one.drop_last(), picked) == 2);
    assert(bar_width(one, picked) <= 12);
    assert(bar_width(two, picked) <= 23);
    assert(bar_width(three, picked) <= 53);
    assert(bar_width(four, picked) <= 88);
}

/// The bar shows its parts from left to right with a bar between two, each with
/// what it says; the part of the current action, and no other, is highlighted.
/// Where sessions are picked, the bar ends by saying how many.
pub proof fn the_bar_shows_its_parts(
    current: Action,
    picked: nat,
    show_archived: bool,
    i: int,
)
    requires
        0 <= i < bar_segments(show_archived).len(),
    ensures
        ({
            let segments = bar_segments(show_archived);
            let line = bar_line(current, picked, show_archived);
            &&& line.len() == 2 * segments.len() + if picked > 0 {
                2int
            } else {
                0
            }
            &&& line[2 * i + 1].text == segment_text(segments[i], picked)
            &&& line[2 * i + 1].style.ground is Blue <==> segments[i] == Segment::Run(current)
            &&& i > 0 ==> line[2 * i].text == "│"@
            &&& picked > 0 ==> line.last().text == "✓ "@ + numbers::decimal(picked) + " selected"@
        }),
{
    lemma_bar_spans(bar_segments(show_archived), current, picked, i);
}

/// What stands where in the texts of the bar.
proof fn lemma_bar_spans(segments: Seq<Segment>, current: Action, picked: nat, i: int)
    requires
        0 <= i < segments.len(),
    ensures
        bar_spans(segments, current, picked).len() == 2 * segments.len(),
        bar_spans(segments, current, picked)[2 * i + 1].text == segment_text(segments[i], picked),
        bar_spans(segments, current, picked)[2 * i + 1].style.ground is Blue <==> segments[i]
            == Segment::Run(current),
        i > 0 ==> bar_spans(segments, current, picked)[2 * i].text == "│"@,
    decreases segments.len(),
{
    let rest = segments.drop_last();
    if segments.len() > 1 {
        if i < rest.len() {
            lemma_bar_spans(rest, current, picked, i);
            assert(rest[i] == segments[i]);
        } else {
            lemma_bar_spans(rest, current, picked, 0);
        }
    } else {
        assert(bar_spans(rest, current, picked).len() == 1);
    }
}

/// The parts of the bar are attach, rename, move, archive and delete, in this
/// order; in the view of the archived sessions the fourth is unarchive. All but
/// the first two say how many sessions are picked, where some are.
pub proof fn the_parts_of_the_bar(show_archived: bool, picked: nat)
    ensures
        ({
            let segments = bar_segments(show_archived);
            let note = if picked > 0 {
                " "@ + numbers::decimal(picked)
            } else {
                Seq::empty()
            };
            &&& segments.len() == 5
            &&& segment_text(segments[0], picked) == "  "@ + "attach"@ + "  "@
            &&& segment_text(segments[1], picked) == "  "@ + "rename"@ + "  "@
            &&& segment_text(segments[2], picked) == "  "@ + "move"@ + note + "  "@
            &&& segment_text(segments[3], picked) == "  "@ + (if show_archived {
                "unarchive"@
            } else {
                "archive"@
            }) + note + "  "@
            &&& segment_text(segments[4], picked) == "  "@ + "delete"@ + note + "  "@
            &&& segments[0] == Segment::Run(Action::Attach)
            &&& segments[1] == Segment::Run(Action::Rename)
            &&& segments[2] == Segment::Run(Action::Move)
            &&& segments[4] == Segment::Run(Action::Delete)
        }),
{
    let segments = bar_segments(show_archived);
    let note = if picked > 0 {
        " "@ + numbers::decimal(picked)
    } else {
        Seq::empty()
    };
    assert forall|k: int| 2 <= k < 5 implies #[trigger] segment_text(segments[k], picked) == "  "@
        + verb(segments[k]) + note + "  "@ by {
        assert(is_bulk(segments[k]));
        let word = verb(segments[k]);
        if picked > 0 {
            assert("  "@ + word + " "@ + numbers::decimal(picked) + "  "@ =~= "  "@ + word + note
                + "  "@);
        } else {
            assert("  "@ + word + "  "@ =~= "  "@ + word + note + "  "@);
        }
    }
    assert(segment_text(segments[2], picked) == "  "@ + verb(segments[2]) + note + "  "@);
    assert(segment_text(segments[3], picked) == "  "@ + verb(segments[3]) + note + "  "@);
    assert(segment_text(segments[4], picked) == "  "@ + verb(segments[4]) + note + "  "@);
}

/// The title names the host. It says that the archived sessions are shown, or
/// how many there are; where there are none, it says nothing of them.
pub proof fn the_title_names_the_host(host: Seq<char>, show_archived: bool, archived: nat)
    ensures
        ({
            let line = title_line(host, show_archived, archived);
            &&& line.len() >= 3 && line[2].text == host
            &&& line.len() == 4 <==> show_archived || archived > 0
            &&& !show_archived && archived > 0 ==> line[3].text == "   ("@ + numbers::decimal(
                archived,
            ) + " archived · ^A)"@
            &&& show_archived ==> line[3].text == "   [ARCHIVED VIEW]"@
            &&& line.len() <= 4
        }),
{
}

/// Where something is searched for, the lowest line shows it; what is going on
/// is shown in its place.
pub proof fn the_lowest_line_shows_the_search(
    search: Seq<char>,
    show_archived: bool,
    status: Seq<char>,
)
    ensures
        search.len() > 0 ==> hint_line(search, show_archived).len() > 1 && hint_line(
            search,
            show_archived,
        )[1].text == search,
        status_line(status).len() == 2 && status_line(status)[1].text == status,
{
}

/// What can be clicked is what is drawn: the first part starts behind the two
/// blanks of the bar, each takes as many columns as its text has characters, and
/// one column lies between two.
pub proof fn regions_are_where_the_texts_are(segments: Seq<Segment>, x: u16, picked: nat, i: int)
    requires
        x + bar_width(segments, picked) <= u16::MAX,
        0 <= i < segments.len(),
    ensures
        ({
            let regions = bar_regions(segments, x, picked);
            &&& regions.len() == segments.len()
            &&& regions[0].start == x + 2
            &&& regions[i].end - regions[i].start == segment_text(segments[i], picked).len()
            &&& regions[i].segment == segments[i]
            &&& i > 0 ==> regions[i].start == regions[i - 1].end + 1
            &&& segments.len() > 0 ==> regions.last().end == x + bar_width(segments, picked)
        }),
    decreases segments.len(),
{
    let rest = segments.drop_last();
    lemma_bar_width_positive(rest, picked);
    if rest.len() > 0 {
        let k = if i < rest.len() {
            i
        } else {
            rest.len() - 1
        };
        regions_are_where_the_texts_are(rest, x, picked, k);
        assert(rest[k] == segments[k]);
    } else {
        assert(bar_width(rest, picked) == 2);
        assert(bar_regions(rest, x, picked).len() == 0);
    }
}

}
