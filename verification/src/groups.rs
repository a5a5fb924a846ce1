//! What holds of the displayed list: each session once, under the header of
//! its project, and everything in the order of its last use.
use vstd::prelude::*;
use crate::app;
use crate::app::{AppView, RowView};
use crate::browse;
use crate::order;
use crate::search;
use crate::ssh::SessionView;
use crate::text;

verus! {

/// Whether the row for a new session comes first, and only there.
pub open spec fn new_comes_first(rows: Seq<RowView>) -> bool {
    &&& rows.len() > 0
    &&& rows[0] is New
    &&& forall|k: int| 0 < k < rows.len() ==> !(#[trigger] rows[k] is New)
}

/// Whether a row has the header of its project above it, where it is a
/// session, and no other header between.
pub open spec fn under_own_header(
    sessions: Seq<SessionView>,
    rows: Seq<RowView>,
    k: int,
) -> bool {
    rows[k] matches RowView::Session(i) ==> exists|h: int|
        0 <= h < k && rows[h] == RowView::Header(order::project_of(sessions[i].name))
            && #[trigger] browse::in_group(rows, h, k)
}

/// Whether behind a row that is a header stands a session of its project.
pub open spec fn heads_a_session(
    sessions: Seq<SessionView>,
    rows: Seq<RowView>,
    k: int,
) -> bool {
    rows[k] matches RowView::Header(p) ==> k + 1 < rows.len() && (rows[k + 1] matches
        RowView::Session(i) && order::project_of(sessions[i].name) == p)
}

/// Whether two rows, one above the other, are in order: two sessions by their
/// last use, and two headers by that of their groups.
pub open spec fn in_order(sessions: Seq<SessionView>, above: RowView, below: RowView) -> bool {
    match (above, below) {
        (RowView::Session(i), RowView::Session(j)) => order::shown_before(sessions, i, j),
        (RowView::Header(p), RowView::Header(q)) => order::project_before(sessions, p, q),
        _ => true,
    }
}

/// What holds of the rows for the first `n` sessions of a display order.
spec fn grouped(sessions: Seq<SessionView>, order: Seq<int>, n: int) -> bool {
    let rows = app::rows_for(sessions, order.take(n));
    &&& new_comes_first(rows)
    &&& n > 0 ==> rows.last() == RowView::Session(order[n - 1])
    &&& forall|m: int| 0 <= m < n ==> rows.contains(RowView::Session(#[trigger] order[m]))
    &&& forall|k: int|
        0 <= k < rows.len() ==> match #[trigger] rows[k] {
            RowView::Session(i) => exists|m: int| 0 <= m < n && #[trigger] order[m] == i,
            RowView::Header(p) => exists|m: int|
                0 <= m < n && order::project_of(sessions[#[trigger] order[m]].name) == p,
            RowView::New => true,
        }
    &&& forall|k: int| 0 <= k < rows.len() ==> #[trigger] under_own_header(sessions, rows, k)
    &&& forall|k: int| 0 <= k < rows.len() ==> #[trigger] heads_a_session(sessions, rows, k)
    &&& forall|a: int, b: int|
        0 <= a < b < rows.len() ==> in_order(sessions, #[trigger] rows[a], #[trigger] rows[b])
}

/// One more session: it and its header, where it needs one, go to the end.
proof fn lemma_grouped_step(sessions: Seq<SessionView>, order: Seq<int>, n: int)
    requires
        order::is_display_order(sessions, order),
        0 <= n < order.len(),
        grouped(sessions, order, n),
    ensures
        grouped(sessions, order, n + 1),
{
    let now = order.take(n + 1);
    let above = app::rows_for(sessions, order.take(n));
    let rows = app::rows_for(sessions, now);
    let i = order[n];
    let p = order::project_of(sessions[i].name);
    assert(now.drop_last() =~= order.take(n));
    assert(now.last() == i);
    let same = n > 0 && order::project_of(sessions[order[n - 1]].name) == p;
    if n > 0 {
        assert(now[now.len() - 2] == order[n - 1]);
    }
    assert(rows == if same {
        above.push(RowView::Session(i))
    } else {
        above.push(RowView::Header(p)).push(RowView::Session(i))
    });
    let last = rows.len() - 1;
    assert(rows[last] == RowView::Session(i));
    assert forall|k: int| 0 <= k < above.len() implies rows[k] == above[k] by {}
    assert(rows[0] == above[0]);
    assert forall|m: int| 0 <= m < n + 1 implies rows.contains(
        RowView::Session(#[trigger] order[m]),
    ) by {
        if m < n {
            assert(above.contains(RowView::Session(order[m])));
            let k = choose|k: int|
                0 <= k < above.len() && above[k] == RowView::Session(order[m]);
            assert(rows[k] == RowView::Session(order[m]));
        }
    }
    assert forall|k: int| 0 <= k < rows.len() implies match #[trigger] rows[k] {
        RowView::Session(j) => exists|m: int| 0 <= m < n + 1 && #[trigger] order[m] == j,
        RowView::Header(q) => exists|m: int|
            0 <= m < n + 1 && order::project_of(sessions[#[trigger] order[m]].name) == q,
        RowView::New => true,
    } by {
        if k < above.len() {
            assert(rows[k] == above[k]);
            match above[k] {
                RowView::Session(j) => {
                    let m = choose|m: int| 0 <= m < n && #[trigger] order[m] == j;
                    assert(order[m] == j);
                },
                RowView::Header(q) => {
                    let m = choose|m: int|
                        0 <= m < n && order::project_of(sessions[#[trigger] order[m]].name) == q;
                    assert(order::project_of(sessions[order[m]].name) == q);
                },
                RowView::New => {},
            }
        } else {
            assert(order[n] == i);
        }
    }
    lemma_own_headers(sessions, above, rows, i, same);
    assert forall|k: int| 0 <= k < rows.len() implies #[trigger] heads_a_session(
        sessions,
        rows,
        k,
    ) by {
        if k < above.len() {
            assert(heads_a_session(sessions, above, k));
            if above[k] is Header {
                assert(rows[k + 1] == above[k + 1]);
            }
        }
    }
    assert forall|a: int, b: int| 0 <= a < b < rows.len() implies in_order(
        sessions,
        #[trigger] rows[a],
        #[trigger] rows[b],
    ) by {
        if b < above.len() {
            assert(in_order(sessions, above[a], above[b]));
        } else if a < above.len() {
            assert(rows[a] == above[a]);
            match above[a] {
                RowView::Session(j) => {
                    let m = choose|m: int| 0 <= m < n && #[trigger] order[m] == j;
                    assert(order::shown_before(sessions, order[m], order[n]));
                },
                RowView::Header(q) => {
                    let m = choose|m: int|
                        0 <= m < n && order::project_of(sessions[#[trigger] order[m]].name) == q;
                    assert(order::shown_before(sessions, order[m], order[n]));
                    if !same && q == p {
                        assert(m < n - 1);
                        assert(order::shown_before(sessions, order[m], order[n - 1]));
                        assert(order::shown_before(sessions, order[n - 1], order[n]));
                        let between = order::project_of(sessions[order[n - 1]].name);
                        order::lemma_project_before(sessions, p, between, p);
                    }
                },
                RowView::New => {},
            }
        }
    }
}

/// Rows that are added at the end leave the headers of the others in place.
proof fn lemma_own_headers(
    sessions: Seq<SessionView>,
    above: Seq<RowView>,
    rows: Seq<RowView>,
    i: int,
    same: bool,
)
    requires
        above.len() > 0,
        rows == if same {
            above.push(RowView::Session(i))
        } else {
            above.push(RowView::Header(order::project_of(sessions[i].name))).push(
                RowView::Session(i),
            )
        },
        same ==> (above.last() matches RowView::Session(j) && order::project_of(sessions[j].name)
            == order::project_of(sessions[i].name)),
        forall|k: int| 0 <= k < above.len() ==> #[trigger] under_own_header(sessions, above, k),
    ensures
        forall|k: int| 0 <= k < rows.len() ==> #[trigger] under_own_header(sessions, rows, k),
{
    let p = order::project_of(sessions[i].name);
    assert forall|k: int| 0 <= k < rows.len() implies #[trigger] under_own_header(
        sessions,
        rows,
        k,
    ) by {
        if k < above.len() {
            assert(rows[k] == above[k]);
            assert(under_own_header(sessions, above, k));
            if let RowView::Session(j) = above[k] {
                let h = choose|h: int|
                    0 <= h < k && above[h] == RowView::Header(
                        order::project_of(sessions[j].name),
                    ) && #[trigger] browse::in_group(above, h, k);
                assert(rows[h] == above[h]);
                assert forall|m: int| h < m < k implies !(#[trigger] rows[m] is Header) by {
                    assert(rows[m] == above[m]);
                }
                assert(browse::in_group(rows, h, k));
            }
        } else if k == rows.len() - 1 {
            if same {
                let before = above.len() - 1;
                assert(under_own_header(sessions, above, before));
                let h = choose|h: int|
                    0 <= h < before && above[h] == RowView::Header(p)
                        && #[trigger] browse::in_group(above, h, before);
                assert(rows[h] == above[h]);
                assert forall|m: int| h < m < k implies !(#[trigger] rows[m] is Header) by {
                    assert(rows[m] == above[m]);
                }
                assert(browse::in_group(rows, h, k));
            } else {
                assert(rows[k - 1] == RowView::Header(p));
                assert(browse::in_group(rows, k - 1, k));
            }
        }
    }
}

/// What holds of the rows for the first `n` sessions.
proof fn lemma_grouped(sessions: Seq<SessionView>, order: Seq<int>, n: int)
    requires
        order::is_display_order(sessions, order),
        0 <= n <= order.len(),
    ensures
        grouped(sessions, order, n),
    decreases n,
{
    if n > 0 {
        lemma_grouped(sessions, order, n - 1);
        lemma_grouped_step(sessions, order, n - 1);
    } else {
        assert(order.take(0) =~= Seq::empty());
    }
}

/// The displayed list starts with the entry for a new session. Every session
/// stands in it, and nothing stands in it twice.
pub proof fn every_session_is_shown_once(sessions: Seq<SessionView>)
    ensures
        ({
            let rows = app::display_rows(sessions);
            &&& new_comes_first(rows)
            &&& forall|i: int|
                0 <= i < sessions.len() ==> #[trigger] rows.contains(RowView::Session(i))
            &&& forall|k: int|
                0 <= k < rows.len() ==> (#[trigger] rows[k] matches RowView::Session(i) ==> 0 <= i
                    < sessions.len())
            &&& rows.no_duplicates()
        }),
{
    order::display_order_exists(sessions);
    let order = order::display_order(sessions);
    lemma_grouped(sessions, order, order.len() as int);
    assert(order.take(order.len() as int) =~= order);
    let rows = app::display_rows(sessions);
    assert forall|i: int| 0 <= i < sessions.len() implies #[trigger] rows.contains(
        RowView::Session(i),
    ) by {
        assert(order.contains(i));
        let m = choose|m: int| 0 <= m < order.len() && order[m] == i;
        assert(rows.contains(RowView::Session(order[m])));
    }
    assert forall|a: int, b: int| 0 <= a < b < rows.len() implies rows[a] != rows[b] by {
        assert(in_order(sessions, rows[a], rows[b]));
        match rows[a] {
            RowView::Session(i) => order::lemma_shown_before(sessions, i, i, i),
            RowView::Header(p) => order::lemma_project_before(sessions, p, p, p),
            RowView::New => {},
        }
    }
}

/// Each session stands under the header of its project, and each header has a
/// session of its project right below it.
pub proof fn sessions_stand_under_their_project(sessions: Seq<SessionView>, k: int)
    requires
        0 <= k < app::display_rows(sessions).len(),
    ensures
        under_own_header(sessions, app::display_rows(sessions), k),
        heads_a_session(sessions, app::display_rows(sessions), k),
{
    order::display_order_exists(sessions);
    let order = order::display_order(sessions);
    lemma_grouped(sessions, order, order.len() as int);
    assert(order.take(order.len() as int) =~= order);
}

/// Projects are shown by their last use, the latest first and `other` at the
/// end; so are the sessions of a project.
pub proof fn the_latest_comes_first(sessions: Seq<SessionView>, a: int, b: int)
    requires
        0 <= a < b < app::display_rows(sessions).len(),
    ensures
        in_order(sessions, app::display_rows(sessions)[a], app::display_rows(sessions)[b]),
        app::display_rows(sessions)[b] is Header ==> app::display_rows(sessions)[a]
            != RowView::Header("other"@),
{
    order::display_order_exists(sessions);
    let order = order::display_order(sessions);
    lemma_grouped(sessions, order, order.len() as int);
    assert(order.take(order.len() as int) =~= order);
}

/// Whether session `i` is one of the project.
pub open spec fn of_project(sessions: Seq<SessionView>, i: int, project: Seq<char>) -> bool {
    0 <= i < sessions.len() && order::project_of(sessions[i].name) == project
}

/// Whether session `i` was used as late as every session of the project, or
/// later.
pub open spec fn as_late_as(sessions: Seq<SessionView>, i: int, project: Seq<char>) -> bool {
    forall|j: int| #[trigger]
        of_project(sessions, j, project) ==> sessions[i].activity_ts >= sessions[j].activity_ts
}

/// The list goes from what was used last to what was used long ago. Of two
/// headers, a session of the upper project was used as late as every session of
/// the lower one; where this holds the other way round too, the two stand in the
/// order of their names; and no header stands below `other`. Of two sessions of
/// a project the one that was used later stands above, in the order of the list
/// where both were used at the same time. Below the header of another project no
/// session of the project is left.
pub proof fn the_list_is_ordered_by_use(sessions: Seq<SessionView>, a: int, b: int)
    requires
        0 <= a < b < app::display_rows(sessions).len(),
    ensures
        match (app::display_rows(sessions)[a], app::display_rows(sessions)[b]) {
            (RowView::Header(p), RowView::Header(q)) => {
                &&& p != "other"@
                &&& q != "other"@ ==> exists|i: int| #[trigger]
                    of_project(sessions, i, p) && as_late_as(sessions, i, q)
                &&& q != "other"@ ==> forall|j: int| #[trigger]
                    of_project(sessions, j, q) && as_late_as(sessions, j, p) ==> text::text_before(
                        p,
                        q,
                    )
            },
            (RowView::Session(i), RowView::Session(j)) => order::project_of(sessions[i].name)
                == order::project_of(sessions[j].name) ==> sessions[i].activity_ts
                > sessions[j].activity_ts || (sessions[i].activity_ts == sessions[j].activity_ts
                && i < j),
            (RowView::Session(i), RowView::Header(q)) => order::project_of(sessions[i].name) != q,
            _ => true,
        },
{
    let rows = app::display_rows(sessions);
    the_latest_comes_first(sessions, a, b);
    match (rows[a], rows[b]) {
        (RowView::Header(p), RowView::Header(q)) => {
            lemma_headed_project(sessions, a, p);
            lemma_headed_project(sessions, b, q);
            lemma_upper_project(sessions, p, q);
        },
        (RowView::Session(i), RowView::Header(q)) => {
            every_session_is_shown_once(sessions);
            sessions_stand_under_their_project(sessions, a);
            assert(rows[a] == RowView::Session(i));
            let h = choose|h: int|
                0 <= h < a && rows[h] == RowView::Header(order::project_of(sessions[i].name))
                    && #[trigger] browse::in_group(rows, h, a);
            assert(rows[h] != rows[b]);
        },
        _ => {},
    }
}

/// What it means for a project to stand above another.
proof fn lemma_upper_project(sessions: Seq<SessionView>, p: Seq<char>, q: Seq<char>)
    requires
        order::project_before(sessions, p, q),
        exists|i: int|
            0 <= i < sessions.len() && order::project_of((#[trigger] sessions[i]).name) == p,
    ensures
        p != "other"@,
        q != "other"@ ==> exists|i: int| #[trigger]
            of_project(sessions, i, p) && as_late_as(sessions, i, q),
        q != "other"@ ==> forall|j: int| #[trigger]
            of_project(sessions, j, q) && as_late_as(sessions, j, p) ==> text::text_before(p, q),
{
    order::a_project_is_as_recent_as_its_latest_session(sessions, p);
    order::a_project_is_as_recent_as_its_latest_session(sessions, q);
    let top = choose|i: int|
        0 <= i < sessions.len() && order::project_of((#[trigger] sessions[i]).name) == p
            && sessions[i].activity_ts == order::newest(sessions, p);
    assert(of_project(sessions, top, p));
    if q != "other"@ {
        assert forall|j: int| #[trigger] of_project(sessions, j, q) implies sessions[top].activity_ts
            >= sessions[j].activity_ts by {
            assert(sessions[j].activity_ts <= order::newest(sessions, q));
        }
        assert(as_late_as(sessions, top, q));
        assert forall|j: int| #[trigger]
            of_project(sessions, j, q) && as_late_as(sessions, j, p) implies text::text_before(
            p,
            q,
        ) by {
            assert(sessions[j].activity_ts <= order::newest(sessions, q));
            assert(sessions[j].activity_ts >= sessions[top].activity_ts);
        }
    }
}

/// A project with a header has a session.
proof fn lemma_headed_project(sessions: Seq<SessionView>, k: int, project: Seq<char>)
    requires
        0 <= k < app::display_rows(sessions).len(),
        app::display_rows(sessions)[k] == RowView::Header(project),
    ensures
        exists|i: int|
            0 <= i < sessions.len() && order::project_of((#[trigger] sessions[i]).name) == project,
{
    every_session_is_shown_once(sessions);
    sessions_stand_under_their_project(sessions, k);
    let rows = app::display_rows(sessions);
    if let RowView::Session(i) = rows[k + 1] {
        assert(order::project_of(sessions[i].name) == project);
    }
}

/// A project moves up where one of its sessions was used: where a session of it
/// was used later than every session of another project, its header stands
/// above that of the other.
pub proof fn one_recent_session_lifts_its_project(
    sessions: Seq<SessionView>,
    a: int,
    b: int,
    p: Seq<char>,
    q: Seq<char>,
    i: int,
)
    requires
        0 <= a < app::display_rows(sessions).len(),
        0 <= b < app::display_rows(sessions).len(),
        app::display_rows(sessions)[a] == RowView::Header(p),
        app::display_rows(sessions)[b] == RowView::Header(q),
        p != "other"@,
        of_project(sessions, i, p),
        forall|j: int| #[trigger]
            of_project(sessions, j, q) ==> sessions[i].activity_ts > sessions[j].activity_ts,
    ensures
        a < b,
{
    if a == b {
        assert(of_project(sessions, i, q));
    } else if b < a {
        the_list_is_ordered_by_use(sessions, b, a);
        let j = choose|j: int| #[trigger]
            of_project(sessions, j, q) && as_late_as(sessions, j, p);
        assert(sessions[j].activity_ts >= sessions[i].activity_ts);
    }
}

/// Each session has the header of its project somewhere above it, and no other
/// header between.
pub proof fn no_other_header_stands_between(sessions: Seq<SessionView>, k: int)
    requires
        0 <= k < app::display_rows(sessions).len(),
    ensures
        app::display_rows(sessions)[k] matches RowView::Session(i) ==> exists|h: int|
            0 <= h < k && #[trigger] app::display_rows(sessions)[h] == RowView::Header(
                order::project_of(sessions[i].name),
            ) && forall|m: int| h < m < k ==> !(#[trigger] app::display_rows(sessions)[m] is Header),
{
    let rows = app::display_rows(sessions);
    sessions_stand_under_their_project(sessions, k);
    if let RowView::Session(i) = rows[k] {
        let h = choose|h: int|
            0 <= h < k && rows[h] == RowView::Header(order::project_of(sessions[i].name))
                && #[trigger] browse::in_group(rows, h, k);
        assert(rows[h] == RowView::Header(order::project_of(sessions[i].name)));
    }
}

// --- Counting ---

/// The sessions of a project whose names match the search: all of them where
/// there is no search.
pub open spec fn matching_sessions(app: AppView, project: Seq<char>) -> Set<int> {
    Set::new(
        |i: int|
            0 <= i < app.sessions.len() && order::project_of(app.sessions[i].name) == project
                && search::fuzzy_match(app.sessions[i].name, app.search),
    )
}

/// The rows of sessions that the search leaves visible.
pub open spec fn visible_sessions(app: AppView) -> Set<int> {
    Set::new(|k: int| 0 <= k < app.rows.len() && app.rows[k] is Session && app.row_visible(k))
}

/// What the headers among the first `n` rows count together.
pub open spec fn counted_before(app: AppView, n: int) -> nat
    decreases n,
{
    if n <= 0 {
        0
    } else if app.rows[n - 1] is Header {
        counted_before(app, n - 1) + app.group_visible_count(n - 1)
    } else {
        counted_before(app, n - 1)
    }
}

/// The visible rows of the group after row `ri`, of those before row `end`.
spec fn group_rows(app: AppView, ri: int, end: int) -> Set<int> {
    Set::new(
        |k: int| ri < k < end && browse::in_group(app.rows, ri, k) && app.row_visible(k),
    )
}

/// The visible rows of the groups of the headers among the first `n` rows.
spec fn headed_rows(app: AppView, n: int) -> Set<int> {
    Set::new(
        |k: int|
            app.row_visible(k) && exists|h: int|
                0 <= h < n && app.rows[h] is Header && #[trigger] browse::in_group(app.rows, h, k),
    )
}

/// The session of a row.
spec fn session_at(rows: Seq<RowView>, k: int) -> int {
    match rows[k] {
        RowView::Session(i) => i,
        _ => 0,
    }
}

/// A count is the number of rows that it counts.
proof fn lemma_count_rows(app: AppView, ri: int, end: int)
    ensures
        group_rows(app, ri, end).finite(),
        group_rows(app, ri, end).len() == app.visible_before(ri, end),
    decreases end - ri,
{
    let rows = group_rows(app, ri, end);
    if end <= ri + 1 {
        assert(rows =~= Set::empty());
    } else {
        lemma_count_rows(app, ri, end - 1);
        let above = group_rows(app, ri, end - 1);
        if browse::in_group(app.rows, ri, end - 1) && app.row_visible(end - 1) {
            assert(rows =~= above.insert(end - 1));
        } else {
            assert(rows =~= above);
        }
    }
}

/// A row is in the group of one header at most.
proof fn lemma_one_header(rows: Seq<RowView>, a: int, b: int, k: int)
    requires
        0 <= a < rows.len(),
        0 <= b < rows.len(),
        rows[a] is Header,
        rows[b] is Header,
        browse::in_group(rows, a, k),
        browse::in_group(rows, b, k),
    ensures
        a == b,
{
    if a < b {
        assert(!(rows[b] is Header));
    } else if b < a {
        assert(!(rows[a] is Header));
    }
}

/// The group of a header holds the sessions of its project.
proof fn lemma_group_is_project(app: AppView, ri: int, project: Seq<char>, k: int)
    requires
        app.well_formed(),
        0 <= ri < app.rows.len(),
        app.rows[ri] == RowView::Header(project),
    ensures
        browse::in_group(app.rows, ri, k) <==> 0 <= k < app.rows.len() && (app.rows[k] matches
            RowView::Session(i) && order::project_of(app.sessions[i].name) == project),
{
    every_session_is_shown_once(app.sessions);
    if 0 <= k < app.rows.len() {
        if let RowView::Session(i) = app.rows[k] {
            sessions_stand_under_their_project(app.sessions, k);
            let h = choose|h: int|
                0 <= h < k && app.rows[h] == RowView::Header(
                    order::project_of(app.sessions[i].name),
                ) && #[trigger] browse::in_group(app.rows, h, k);
            if browse::in_group(app.rows, ri, k) {
                lemma_one_header(app.rows, ri, h, k);
            }
            if order::project_of(app.sessions[i].name) == project {
                assert(app.rows[h] == app.rows[ri]);
                assert(h == ri);
            }
        }
    }
}

/// The number at a header is that of the sessions of its project whose names
/// match the search, all of them where there is no search; and the header is
/// visible where there is one.
pub proof fn headers_count_their_project(app: AppView, ri: int, project: Seq<char>)
    requires
        app.well_formed(),
        0 <= ri < app.rows.len(),
        app.rows[ri] == RowView::Header(project),
    ensures
        matching_sessions(app, project).finite(),
        app.group_visible_count(ri) == matching_sessions(app, project).len(),
        app.row_visible(ri) <==> app.group_visible_count(ri) > 0,
{
    let len = app.rows.len() as int;
    let rows = group_rows(app, ri, len);
    let matching = matching_sessions(app, project);
    let session = |k: int| session_at(app.rows, k);
    every_session_is_shown_once(app.sessions);
    lemma_count_rows(app, ri, len);
    assert forall|k: int| rows.contains(k) implies matching.contains(session(k)) by {
        lemma_group_is_project(app, ri, project, k);
    }
    assert forall|i: int| matching.contains(i) implies exists|k: int| #[trigger]
        rows.contains(k) && session(k) == i by {
        assert(app.rows.contains(RowView::Session(i)));
        let k = choose|k: int| 0 <= k < app.rows.len() && app.rows[k] == RowView::Session(i);
        lemma_group_is_project(app, ri, project, k);
        assert(app.session_matches(k));
        assert(rows.contains(k) && session(k) == i);
    }
    assert(rows.map(session) =~= matching);
    assert forall|a: int, b: int| rows.contains(a) && rows.contains(b) && session(a) == session(
        b,
    ) implies a == b by {
        assert(app.rows[a] == app.rows[b]);
    }
    vstd::set_lib::lemma_map_size(rows, matching, session);
    if app.search.len() > 0 {
        browse::what_a_search_shows(app, ri);
    } else {
        sessions_stand_under_their_project(app.sessions, ri);
        assert(heads_a_session(app.sessions, app.rows, ri));
        lemma_group_is_project(app, ri, project, ri + 1);
        assert(rows.contains(ri + 1));
        if rows.len() == 0 {
            assert(rows =~= Set::empty());
        }
    }
}

/// What the headers among the first rows count is the rows of their groups.
proof fn lemma_counted_before(app: AppView, n: int)
    requires
        0 <= n <= app.rows.len(),
    ensures
        headed_rows(app, n).finite(),
        headed_rows(app, n).len() == counted_before(app, n),
    decreases n,
{
    let rows = headed_rows(app, n);
    if n <= 0 {
        assert(rows =~= Set::empty());
    } else {
        lemma_counted_before(app, n - 1);
        let above = headed_rows(app, n - 1);
        if app.rows[n - 1] is Header {
            let len = app.rows.len() as int;
            let here = group_rows(app, n - 1, len);
            lemma_count_rows(app, n - 1, len);
            assert forall|k: int| rows.contains(k) == (above.contains(k) || here.contains(k)) by {
                if rows.contains(k) {
                    let h = choose|h: int|
                        0 <= h < n && app.rows[h] is Header && #[trigger] browse::in_group(
                            app.rows,
                            h,
                            k,
                        );
                    assert(browse::in_group(app.rows, h, k));
                }
                if here.contains(k) {
                    assert(browse::in_group(app.rows, n - 1, k));
                }
            }
            assert forall|k: int| above.contains(k) implies !here.contains(k) by {
                if here.contains(k) {
                    let h = choose|h: int|
                        0 <= h < n - 1 && app.rows[h] is Header && #[trigger] browse::in_group(
                            app.rows,
                            h,
                            k,
                        );
                    lemma_one_header(app.rows, h, n - 1, k);
                }
            }
            assert(rows =~= above + here);
            assert(above.disjoint(here));
            vstd::set_lib::lemma_set_disjoint_lens(above, here);
        } else {
            assert(rows =~= above);
        }
    }
}

/// A session is the last visible one of its group where no visible session of its
/// project stands below it.
pub proof fn the_last_of_a_group(app: AppView, ri: int, i: int)
    requires
        app.well_formed(),
        0 <= ri < app.rows.len(),
        app.rows[ri] == RowView::Session(i),
    ensures
        app.last_visible_in_group(ri) <==> forall|k: int|
            ri < k < app.rows.len() && app.row_visible(k) ==> !(#[trigger] app.rows[k] matches
                RowView::Session(j) && order::project_of(app.sessions[j].name) == order::project_of(
                app.sessions[i].name,
            )),
{
    let project = order::project_of(app.sessions[i].name);
    sessions_stand_under_their_project(app.sessions, ri);
    let h = choose|h: int|
        0 <= h < ri && app.rows[h] == RowView::Header(project) && #[trigger] browse::in_group(
            app.rows,
            h,
            ri,
        );
    assert forall|k: int| ri < k < app.rows.len() implies #[trigger] browse::in_group(
        app.rows,
        ri,
        k,
    ) == (app.rows[k] matches RowView::Session(j) && order::project_of(app.sessions[j].name)
        == project) by {
        lemma_group_is_project(app, h, project, k);
        if browse::in_group(app.rows, h, k) {
            assert forall|m: int| ri < m < k implies !(#[trigger] app.rows[m] is Header) by {}
        }
        if browse::in_group(app.rows, ri, k) {
            assert forall|m: int| h < m < k implies !(#[trigger] app.rows[m] is Header) by {
                if m == ri {
                } else if m < ri {
                } else {
                    assert(ri < m < k);
                }
            }
            assert(browse::in_group(app.rows, h, k));
        }
    }
    if app.last_visible_in_group(ri) {
        assert forall|k: int| ri < k < app.rows.len() && app.row_visible(k) implies !(
        #[trigger] app.rows[k] matches RowView::Session(j) && order::project_of(
            app.sessions[j].name,
        ) == project) by {
            assert(!browse::in_group(app.rows, ri, k));
        }
    } else {
        let k = choose|k: int| #[trigger]
            browse::in_group(app.rows, ri, k) && app.row_visible(k);
        assert(app.rows[k] matches RowView::Session(j) && order::project_of(app.sessions[j].name)
            == project);
    }
}

/// The headers together count every visible session once.
pub proof fn headers_count_every_visible_session(app: AppView)
    requires
        app.well_formed(),
    ensures
        visible_sessions(app).finite(),
        counted_before(app, app.rows.len() as int) == visible_sessions(app).len(),
{
    let len = app.rows.len() as int;
    lemma_counted_before(app, len);
    let headed = headed_rows(app, len);
    assert forall|k: int| visible_sessions(app).contains(k) == headed.contains(k) by {
        if visible_sessions(app).contains(k) {
            sessions_stand_under_their_project(app.sessions, k);
            let h = choose|h: int|
                0 <= h < k && app.rows[h] == RowView::Header(
                    order::project_of(app.sessions[session_at(app.rows, k)].name),
                ) && #[trigger] browse::in_group(app.rows, h, k);
            assert(browse::in_group(app.rows, h, k) && app.rows[h] is Header);
        }
    }
    assert(visible_sessions(app) =~= headed);
}

}
