//! The order in which sessions are displayed: grouped by project, the group
//! that was used last first, and the session that was used last first within
//! its group.
use vstd::prelude::*;
use vstd::string::*;
use crate::ssh::{Session, SessionView};
use crate::ssh;
use crate::text;

verus! {

// --- Projects ---

/// The project of a session: what its name says before the first slash, or
/// `other` where there is no slash.
pub open spec fn project_of(name: Seq<char>) -> Seq<char> {
    match text::split_once(name, '/') {
        Some((project, _)) => project,
        None => "other"@,
    }
}

/// The project of the session named `name`.
pub fn project_name(name: &str) -> (r: String)
    ensures
        r@ == project_of(name@),
{
    match text::split_list(&text::char_list(name), '/') {
        Some((project, _)) => text::string_of(&project),
        None => "other".to_string(),
    }
}

/// When the project was last used: the latest activity of its sessions.
pub open spec fn newest(sessions: Seq<SessionView>, project: Seq<char>) -> int
    decreases sessions.len(),
{
    if sessions.len() == 0 {
        i64::MIN as int
    } else {
        let rest = newest(sessions.drop_last(), project);
        let last = sessions.last();
        if project_of(last.name) == project && last.activity_ts > rest {
            last.activity_ts as int
        } else {
            rest
        }
    }
}

/// Whether the group of `p` is displayed before that of `q`: the one used
/// later first, alphabetically where both were used at the same time, and
/// `other` last of all.
pub open spec fn project_before(
    sessions: Seq<SessionView>,
    p: Seq<char>,
    q: Seq<char>,
) -> bool {
    if p == q || p == "other"@ {
        false
    } else if q == "other"@ {
        true
    } else {
        let (at_p, at_q) = (newest(sessions, p), newest(sessions, q));
        at_p > at_q || (at_p == at_q && text::text_before(p, q))
    }
}

/// Whether session `i` is displayed before session `j`: by their groups, and
/// within one group the one used later first, as listed where both were used
/// at the same time.
pub open spec fn shown_before(sessions: Seq<SessionView>, i: int, j: int) -> bool {
    let (p, q) = (project_of(sessions[i].name), project_of(sessions[j].name));
    if p == q {
        let (at_i, at_j) = (sessions[i].activity_ts, sessions[j].activity_ts);
        at_i > at_j || (at_i == at_j && i < j)
    } else {
        project_before(sessions, p, q)
    }
}

/// Whether `order` lists the indices of all sessions as they are displayed.
pub open spec fn is_display_order(sessions: Seq<SessionView>, order: Seq<int>) -> bool {
    &&& order.len() == sessions.len()
    &&& forall|k: int| 0 <= k < order.len() ==> 0 <= #[trigger] order[k] < sessions.len()
    &&& forall|i: int| 0 <= i < sessions.len() ==> #[trigger] order.contains(i)
    &&& forall|a: int, b: int|
        0 <= a < b < order.len() ==> shown_before(sessions, #[trigger] order[a], #[trigger] order[b])
}

/// The indices of all sessions as they are displayed.
pub open spec fn display_order(sessions: Seq<SessionView>) -> Seq<int> {
    choose|order: Seq<int>| is_display_order(sessions, order)
}

// --- The order is a strict total one ---

/// No group is displayed before itself; of two groups exactly one is before
/// the other; and being before is transitive.
pub proof fn lemma_project_before(
    sessions: Seq<SessionView>,
    p: Seq<char>,
    q: Seq<char>,
    r: Seq<char>,
)
    ensures
        !project_before(sessions, p, p),
        p != q ==> project_before(sessions, p, q) != project_before(sessions, q, p),
        project_before(sessions, p, q) && project_before(sessions, q, r) ==> project_before(
            sessions,
            p,
            r,
        ),
{
    text::lemma_text_before_total(p, q);
    if text::text_before(p, q) && text::text_before(q, r) {
        text::lemma_text_before_transitive(p, q, r);
    }
    text::lemma_text_before_irreflexive(p);
}

/// No session is displayed before itself; of two sessions exactly one is
/// before the other; and being before is transitive.
pub proof fn lemma_shown_before(sessions: Seq<SessionView>, i: int, j: int, k: int)
    ensures
        !shown_before(sessions, i, i),
        i != j ==> shown_before(sessions, i, j) != shown_before(sessions, j, i),
        shown_before(sessions, i, j) && shown_before(sessions, j, k) ==> shown_before(
            sessions,
            i,
            k,
        ),
{
    let (p, q, r) = (
        project_of(sessions[i].name),
        project_of(sessions[j].name),
        project_of(sessions[k].name),
    );
    lemma_project_before(sessions, p, q, r);
    lemma_project_before(sessions, q, p, r);
    lemma_project_before(sessions, p, r, q);
}

/// There is one display order only.
pub proof fn display_order_is_unique(sessions: Seq<SessionView>, a: Seq<int>, b: Seq<int>)
    requires
        is_display_order(sessions, a),
        is_display_order(sessions, b),
    ensures
        a == b,
{
    lemma_same_prefix(sessions, a, b, a.len() as int);
    assert(a =~= b);
}

/// Two display orders agree on their first `n` places.
proof fn lemma_same_prefix(sessions: Seq<SessionView>, a: Seq<int>, b: Seq<int>, n: int)
    requires
        is_display_order(sessions, a),
        is_display_order(sessions, b),
        0 <= n <= a.len(),
    ensures
        forall|k: int| 0 <= k < n ==> a[k] == b[k],
    decreases n,
{
    if n > 0 {
        lemma_same_prefix(sessions, a, b, n - 1);
        let k = n - 1;
        if a[k] != b[k] {
            lemma_no_skip(sessions, a, b, k);
            lemma_no_skip(sessions, b, a, k);
            lemma_shown_before(sessions, a[k], b[k], a[k]);
        }
    }
}

/// Where two display orders agree up to place `k` and differ there, what the
/// one holds there comes later in the other.
proof fn lemma_no_skip(sessions: Seq<SessionView>, a: Seq<int>, b: Seq<int>, k: int)
    requires
        is_display_order(sessions, a),
        is_display_order(sessions, b),
        0 <= k < a.len(),
        forall|j: int| 0 <= j < k ==> a[j] == b[j],
        a[k] != b[k],
    ensures
        shown_before(sessions, b[k], a[k]),
{
    assert(b.contains(a[k]));
    let m = choose|m: int| 0 <= m < b.len() && b[m] == a[k];
    if m < k {
        assert(a[m] == b[m]);
        assert(shown_before(sessions, a[m], a[k]));
        lemma_shown_before(sessions, a[k], a[k], a[k]);
    }
}

/// Putting index `i` in its place keeps the places in order.
proof fn lemma_insert_keeps_order(
    sessions: Seq<SessionView>,
    order: Seq<int>,
    at: int,
    i: int,
)
    requires
        0 <= at <= order.len(),
        forall|a: int, b: int|
            0 <= a < b < order.len() ==> shown_before(
                sessions,
                #[trigger] order[a],
                #[trigger] order[b],
            ),
        forall|a: int| 0 <= a < at ==> shown_before(sessions, #[trigger] order[a], i),
        at < order.len() ==> shown_before(sessions, i, order[at]),
    ensures
        forall|a: int, b: int|
            0 <= a < b < order.len() + 1 ==> shown_before(
                sessions,
                #[trigger] order.insert(at, i)[a],
                #[trigger] order.insert(at, i)[b],
            ),
{
    let longer = order.insert(at, i);
    assert forall|a: int, b: int| 0 <= a < b < longer.len() implies shown_before(
        sessions,
        #[trigger] longer[a],
        #[trigger] longer[b],
    ) by {
        let old_a = if a < at {
            a
        } else {
            a - 1
        };
        let old_b = if b < at {
            b
        } else {
            b - 1
        };
        if a != at {
            assert(longer[a] == order[old_a]);
        }
        if b != at {
            assert(longer[b] == order[old_b]);
        }
        if a == at && old_b > at {
            assert(shown_before(sessions, order[at], order[old_b]));
            lemma_shown_before(sessions, i, order[at], order[old_b]);
        }
    }
}

/// A place for index `i` in an ordered list: what comes before it is displayed
/// before `i`, what follows is not.
proof fn lemma_place(sessions: Seq<SessionView>, order: Seq<int>, i: int) -> (at: int)
    requires
        !order.contains(i),
    ensures
        0 <= at <= order.len(),
        forall|a: int| 0 <= a < at ==> shown_before(sessions, #[trigger] order[a], i),
        at < order.len() ==> shown_before(sessions, i, order[at]),
    decreases order.len(),
{
    if order.len() == 0 {
        0
    } else {
        let rest = order.drop_last();
        assert(!rest.contains(i)) by {
            if rest.contains(i) {
                let k = choose|k: int| 0 <= k < rest.len() && rest[k] == i;
                assert(order[k] == i);
            }
        }
        let at = lemma_place(sessions, rest, i);
        assert forall|a: int| 0 <= a < at implies shown_before(sessions, #[trigger] order[a], i) by {
            assert(rest[a] == order[a]);
        }
        if at < rest.len() {
            assert(order[at] == rest[at]);
            at
        } else {
            assert(order.contains(order.last()));
            lemma_shown_before(sessions, order.last(), i, i);
            if shown_before(sessions, order.last(), i) {
                order.len() as int
            } else {
                at
            }
        }
    }
}

/// The first `n` sessions can be put in order.
proof fn lemma_some_order(sessions: Seq<SessionView>, n: int) -> (order: Seq<int>)
    requires
        0 <= n <= sessions.len(),
    ensures
        order.len() == n,
        forall|k: int| 0 <= k < n ==> 0 <= #[trigger] order[k] < n,
        forall|i: int| 0 <= i < n ==> #[trigger] order.contains(i),
        forall|a: int, b: int|
            0 <= a < b < n ==> shown_before(sessions, #[trigger] order[a], #[trigger] order[b]),
    decreases n,
{
    if n == 0 {
        Seq::empty()
    } else {
        let i = n - 1;
        let rest = lemma_some_order(sessions, i);
        let at = lemma_place(sessions, rest, i);
        lemma_insert_keeps_order(sessions, rest, at, i);
        let order = rest.insert(at, i);
        lemma_insert_contains(rest, at, i);
        order
    }
}

/// What a list holds after index `i` was put at place `at`.
proof fn lemma_insert_contains(order: Seq<int>, at: int, i: int)
    requires
        0 <= at <= order.len(),
    ensures
        forall|n: int|
            #[trigger] order.insert(at, i).contains(n) <==> n == i || order.contains(n),
        forall|k: int|
            0 <= k <= order.len() ==> #[trigger] order.insert(at, i)[k] == i || order.contains(
                order.insert(at, i)[k],
            ),
{
    let longer = order.insert(at, i);
    assert forall|k: int| 0 <= k <= order.len() implies #[trigger] longer[k] == i
        || order.contains(longer[k]) by {
        if k < at {
            assert(longer[k] == order[k]);
        } else if k > at {
            assert(longer[k] == order[k - 1]);
        }
    }
    assert forall|n: int| #[trigger] longer.contains(n) <==> n == i || order.contains(n) by {
        assert(longer[at] == i);
        if order.contains(n) {
            let k = choose|k: int| 0 <= k < order.len() && order[k] == n;
            if k < at {
                assert(longer[k] == n);
            } else {
                assert(longer[k + 1] == n);
            }
        }
    }
}

/// Every list of sessions has a display order, and [`display_order`] is it.
pub proof fn display_order_exists(sessions: Seq<SessionView>)
    ensures
        is_display_order(sessions, display_order(sessions)),
{
    let order = lemma_some_order(sessions, sessions.len() as int);
    assert(is_display_order(sessions, order));
}

// --- Computing the order ---

/// A list of indices as integers.
pub open spec fn ints(list: Seq<usize>) -> Seq<int> {
    list.map_values(|i: usize| i as int)
}

/// The projects of all sessions, one each.
fn project_list(sessions: &Vec<Session>) -> (r: Vec<String>)
    ensures
        r.len() == sessions.len(),
        forall|k: int|
            0 <= k < r.len() ==> (#[trigger] r@[k])@ == project_of(sessions@[k].name@),
{
    let mut out: Vec<String> = Vec::new();
    let mut i: usize = 0;
    while i < sessions.len()
        invariant
            i <= sessions.len(),
            out.len() == i,
            forall|k: int|
                0 <= k < i ==> (#[trigger] out@[k])@ == project_of(sessions@[k].name@),
        decreases sessions.len() - i,
    {
        out.push(project_name(sessions[i].name.as_str()));
        i += 1;
    }
    out
}

/// When the project was last used.
fn newest_use(sessions: &Vec<Session>, projects: &Vec<String>, project: &str) -> (r: i64)
    requires
        projects.len() == sessions.len(),
        forall|k: int|
            0 <= k < projects.len() ==> (#[trigger] projects@[k])@ == project_of(
                sessions@[k].name@,
            ),
    ensures
        r == newest(ssh::session_views(sessions@), project@),
{
    let ghost all = ssh::session_views(sessions@);
    let mut latest: i64 = i64::MIN;
    let mut i: usize = 0;
    while i < sessions.len()
        invariant
            i <= sessions.len(),
            projects.len() == sessions.len(),
            forall|k: int|
                0 <= k < projects.len() ==> (#[trigger] projects@[k])@ == project_of(
                    sessions@[k].name@,
                ),
            all == ssh::session_views(sessions@),
            latest == newest(all.take(i as int), project@),
        decreases sessions.len() - i,
    {
        assert(all.take(i + 1).drop_last() =~= all.take(i as int));
        assert(all.take(i + 1).last() == sessions@[i as int]@);
        assert(projects@[i as int]@ == project_of(sessions@[i as int].name@));
        if text::same_text(projects[i].as_str(), project) && sessions[i].activity_ts > latest {
            latest = sessions[i].activity_ts;
        }
        i += 1;
    }
    assert(all.take(i as int) =~= all);
    latest
}

/// When the project of each session was last used.
fn newest_list(sessions: &Vec<Session>, projects: &Vec<String>) -> (r: Vec<i64>)
    requires
        projects.len() == sessions.len(),
        forall|k: int|
            0 <= k < projects.len() ==> (#[trigger] projects@[k])@ == project_of(
                sessions@[k].name@,
            ),
    ensures
        r.len() == sessions.len(),
        forall|k: int|
            0 <= k < r.len() ==> #[trigger] r@[k] == newest(
                ssh::session_views(sessions@),
                project_of(sessions@[k].name@),
            ),
{
    let mut out: Vec<i64> = Vec::new();
    let mut i: usize = 0;
    while i < sessions.len()
        invariant
            i <= sessions.len(),
            out.len() == i,
            projects.len() == sessions.len(),
            forall|k: int|
                0 <= k < projects.len() ==> (#[trigger] projects@[k])@ == project_of(
                    sessions@[k].name@,
                ),
            forall|k: int|
                0 <= k < i ==> #[trigger] out@[k] == newest(
                    ssh::session_views(sessions@),
                    project_of(sessions@[k].name@),
                ),
        decreases sessions.len() - i,
    {
        assert(projects@[i as int]@ == project_of(sessions@[i as int].name@));
        out.push(newest_use(sessions, projects, projects[i].as_str()));
        i += 1;
    }
    out
}

/// Whether session `i` is displayed before session `j`.
fn goes_before(
    sessions: &Vec<Session>,
    projects: &Vec<String>,
    latest: &Vec<i64>,
    i: usize,
    j: usize,
) -> (r: bool)
    requires
        i < sessions.len(),
        j < sessions.len(),
        projects.len() == sessions.len(),
        latest.len() == sessions.len(),
        forall|k: int|
            0 <= k < projects.len() ==> (#[trigger] projects@[k])@ == project_of(
                sessions@[k].name@,
            ),
        forall|k: int|
            0 <= k < latest.len() ==> #[trigger] latest@[k] == newest(
                ssh::session_views(sessions@),
                project_of(sessions@[k].name@),
            ),
    ensures
        r == shown_before(ssh::session_views(sessions@), i as int, j as int),
{
    let p = projects[i].as_str();
    let q = projects[j].as_str();
    assert(p@ == project_of(sessions@[i as int].name@));
    assert(q@ == project_of(sessions@[j as int].name@));
    assert(ssh::session_views(sessions@)[i as int] == sessions@[i as int]@);
    assert(ssh::session_views(sessions@)[j as int] == sessions@[j as int]@);
    if text::same_text(p, q) {
        let at_i = sessions[i].activity_ts;
        let at_j = sessions[j].activity_ts;
        at_i > at_j || (at_i == at_j && i < j)
    } else if text::same_text(p, "other") {
        false
    } else if text::same_text(q, "other") {
        true
    } else {
        latest[i] > latest[j] || (latest[i] == latest[j] && text::sorts_before(p, q))
    }
}

/// The indices of all sessions as they are displayed.
pub fn display_indices(sessions: &Vec<Session>) -> (r: Vec<usize>)
    ensures
        ints(r@) == display_order(ssh::session_views(sessions@)),
        is_display_order(ssh::session_views(sessions@), ints(r@)),
{
    let ghost all = ssh::session_views(sessions@);
    let projects = project_list(sessions);
    let latest = newest_list(sessions, &projects);
    let mut order: Vec<usize> = Vec::new();
    let mut i: usize = 0;
    while i < sessions.len()
        invariant
            i <= sessions.len(),
            all == ssh::session_views(sessions@),
            projects.len() == sessions.len(),
            latest.len() == sessions.len(),
            forall|k: int|
                0 <= k < projects.len() ==> (#[trigger] projects@[k])@ == project_of(
                    sessions@[k].name@,
                ),
            forall|k: int|
                0 <= k < latest.len() ==> #[trigger] latest@[k] == newest(
                    all,
                    project_of(sessions@[k].name@),
                ),
            order.len() == i,
            forall|k: int| 0 <= k < i ==> #[trigger] order@[k] < i,
            forall|n: int| 0 <= n < i ==> #[trigger] ints(order@).contains(n),
            forall|a: int, b: int|
                0 <= a < b < order.len() ==> shown_before(
                    all,
                    #[trigger] order@[a] as int,
                    #[trigger] order@[b] as int,
                ),
        decreases sessions.len() - i,
    {
        let mut at: usize = 0;
        while at < order.len() && goes_before(sessions, &projects, &latest, order[at], i)
            invariant
                i < sessions.len(),
                at <= order.len(),
                order.len() == i,
                all == ssh::session_views(sessions@),
                projects.len() == sessions.len(),
                latest.len() == sessions.len(),
                forall|k: int|
                    0 <= k < projects.len() ==> (#[trigger] projects@[k])@ == project_of(
                        sessions@[k].name@,
                    ),
                forall|k: int|
                    0 <= k < latest.len() ==> #[trigger] latest@[k] == newest(
                        all,
                        project_of(sessions@[k].name@),
                    ),
                forall|k: int| 0 <= k < i ==> #[trigger] order@[k] < i,
                forall|a: int|
                    0 <= a < at ==> shown_before(all, #[trigger] order@[a] as int, i as int),
            decreases order.len() - at,
        {
            at += 1;
        }
        let ghost before = ints(order@);
        proof {
            assert forall|a: int, b: int| 0 <= a < b < before.len() implies shown_before(
                all,
                #[trigger] before[a],
                #[trigger] before[b],
            ) by {
                assert(shown_before(all, order@[a] as int, order@[b] as int));
            }
            if at < order.len() {
                lemma_shown_before(all, order@[at as int] as int, i as int, i as int);
            }
            assert forall|a: int| 0 <= a < at implies shown_before(
                all,
                #[trigger] before[a],
                i as int,
            ) by {
                assert(shown_before(all, order@[a] as int, i as int));
            }
            lemma_insert_keeps_order(all, before, at as int, i as int);
            lemma_insert_contains(before, at as int, i as int);
        }
        order.insert(at, i);
        proof {
            let after = ints(order@);
            assert(after =~= before.insert(at as int, i as int));
            assert forall|n: int| 0 <= n < i + 1 implies #[trigger] after.contains(n) by {
                assert(n == i || before.contains(n));
            }
            assert forall|k: int| 0 <= k < i + 1 implies #[trigger] order@[k] < i + 1 by {
                assert(after[k] == i || before.contains(after[k]));
            }
            assert forall|a: int, b: int| 0 <= a < b < order.len() implies shown_before(
                all,
                #[trigger] order@[a] as int,
                #[trigger] order@[b] as int,
            ) by {
                assert(shown_before(all, after[a], after[b]));
            }
        }
        i += 1;
    }
    proof {
        let found = ints(order@);
        assert forall|a: int, b: int| 0 <= a < b < found.len() implies shown_before(
            all,
            #[trigger] found[a],
            #[trigger] found[b],
        ) by {
            assert(shown_before(all, order@[a] as int, order@[b] as int));
        }
        assert(is_display_order(all, found));
        display_order_is_unique(all, found, display_order(all));
    }
    order
}

// --- Laws ---

/// A session belongs to the project that its name spells out before the first
/// slash; without a slash it belongs to `other`.
pub proof fn names_spell_out_their_project(project: Seq<char>, rest: Seq<char>)
    requires
        !project.contains('/'),
    ensures
        project_of(project + seq!['/'] + rest) == project,
        project_of(project) == "other"@,
{
    text::splitting_undoes_joining(project, '/', rest);
    text::splitting_is_at_the_first(project, '/');
    if let Some((head, tail)) = text::split_once(project, '/') {
        assert(project[head.len() as int] == '/');
        assert(project.contains(project[head.len() as int]));
    }
}

/// A project was last used when the session of it was that was used last: no
/// session of it was used later, and one of them was used then.
pub proof fn a_project_is_as_recent_as_its_latest_session(
    sessions: Seq<SessionView>,
    project: Seq<char>,
)
    ensures
        forall|i: int|
            0 <= i < sessions.len() && project_of((#[trigger] sessions[i]).name) == project
                ==> sessions[i].activity_ts <= newest(sessions, project),
        (exists|i: int|
            0 <= i < sessions.len() && project_of((#[trigger] sessions[i]).name) == project)
            ==> exists|i: int|
            0 <= i < sessions.len() && project_of((#[trigger] sessions[i]).name) == project
                && sessions[i].activity_ts == newest(sessions, project),
    decreases sessions.len(),
{
    if sessions.len() > 0 {
        let rest = sessions.drop_last();
        let end = sessions.len() - 1;
        a_project_is_as_recent_as_its_latest_session(rest, project);
        lemma_newest_floor(rest, project);
        assert forall|i: int|
            0 <= i < sessions.len() && project_of((#[trigger] sessions[i]).name)
                == project implies sessions[i].activity_ts <= newest(sessions, project) by {
            if i < end {
                assert(rest[i] == sessions[i]);
            }
        }
        if exists|i: int|
            0 <= i < sessions.len() && project_of((#[trigger] sessions[i]).name) == project {
            if newest(sessions, project) == newest(rest, project) {
                let some = choose|i: int|
                    0 <= i < sessions.len() && project_of((#[trigger] sessions[i]).name) == project;
                if exists|i: int|
                    0 <= i < rest.len() && project_of((#[trigger] rest[i]).name) == project {
                    let k = choose|i: int|
                        0 <= i < rest.len() && project_of((#[trigger] rest[i]).name) == project
                            && rest[i].activity_ts == newest(rest, project);
                    assert(sessions[k] == rest[k]);
                } else {
                    if some < end {
                        assert(rest[some] == sessions[some]);
                    }
                    lemma_newest_of_none(rest, project);
                    assert(sessions[end].activity_ts == newest(sessions, project));
                }
            } else {
                assert(sessions[end].activity_ts == newest(sessions, project));
            }
        }
    }
}

/// No project was used before the first second there is.
proof fn lemma_newest_floor(sessions: Seq<SessionView>, project: Seq<char>)
    ensures
        newest(sessions, project) >= i64::MIN,
    decreases sessions.len(),
{
    if sessions.len() > 0 {
        lemma_newest_floor(sessions.drop_last(), project);
    }
}

/// A project without sessions was never used.
proof fn lemma_newest_of_none(sessions: Seq<SessionView>, project: Seq<char>)
    requires
        forall|i: int|
            0 <= i < sessions.len() ==> project_of((#[trigger] sessions[i]).name) != project,
    ensures
        newest(sessions, project) == i64::MIN,
    decreases sessions.len(),
{
    if sessions.len() > 0 {
        let rest = sessions.drop_last();
        assert forall|i: int| 0 <= i < rest.len() implies project_of((#[trigger] rest[i]).name)
            != project by {
            assert(rest[i] == sessions[i]);
        }
        lemma_newest_of_none(rest, project);
        assert(sessions.last() == sessions[sessions.len() - 1]);
    }
}

}
