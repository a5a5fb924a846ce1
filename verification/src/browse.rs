//! Moving through the list: which rows the search leaves visible, and where
//! the cursor goes.
use vstd::prelude::*;
use vstd::string::*;
use crate::app::{App, AppView, Row, RowView};
use crate::search;

verus! {

// --- What the search leaves visible ---

/// Whether row `k` is a session of the group that follows row `ri`: no header
/// stands between them.
pub open spec fn in_group(rows: Seq<RowView>, ri: int, k: int) -> bool {
    &&& ri < k < rows.len()
    &&& rows[k] is Session
    &&& forall|m: int| ri < m < k ==> !(#[trigger] rows[m] is Header)
}

impl AppView {
    /// Whether row `ri` is a session whose name matches the search.
    pub open spec fn session_matches(self, ri: int) -> bool {
        match self.rows[ri] {
            RowView::Session(i) => search::fuzzy_match(self.sessions[i].name, self.search),
            _ => false,
        }
    }

    /// Whether the search leaves row `ri` visible: every row where there is no
    /// search; else the sessions that match, and the headers of their groups.
    pub open spec fn row_visible(self, ri: int) -> bool {
        ||| self.search.len() == 0
        ||| self.session_matches(ri)
        ||| self.rows[ri] is Header && exists|k: int|
            #[trigger] in_group(self.rows, ri, k) && self.session_matches(k)
    }

    /// Whether the search leaves the `k`-th selectable row visible.
    pub open spec fn matches(self, k: int) -> bool {
        self.search.len() == 0 || self.session_matches(self.selectable[k])
    }

    /// How many sessions of the group after row `ri` are visible, of those
    /// before row `end`.
    pub open spec fn visible_before(self, ri: int, end: int) -> nat
        decreases end - ri,
    {
        if end <= ri + 1 {
            0
        } else {
            let above = self.visible_before(ri, end - 1);
            if in_group(self.rows, ri, end - 1) && self.row_visible(end - 1) {
                above + 1
            } else {
                above
            }
        }
    }

    /// How many sessions of the group after row `ri` are visible.
    pub open spec fn group_visible_count(self, ri: int) -> nat {
        self.visible_before(ri, self.rows.len() as int)
    }

    /// Whether no visible session of its group follows row `ri`.
    pub open spec fn last_visible_in_group(self, ri: int) -> bool {
        !exists|k: int| #[trigger] in_group(self.rows, ri, k) && self.row_visible(k)
    }
}

/// Behind the header that ends a group no row counts.
proof fn lemma_count_stops(app: AppView, ri: int, header: int, end: int)
    requires
        ri < header < end <= app.rows.len(),
        app.rows[header] is Header,
    ensures
        app.visible_before(ri, end) == app.visible_before(ri, header),
    decreases end - header,
{
    assert(!in_group(app.rows, ri, end - 1));
    if end - 1 > header {
        lemma_count_stops(app, ri, header, end - 1);
    }
}

impl App {
    /// Whether `needle` matches `haystack`: its characters occur there in the
    /// same order, case aside.
    pub fn fuzzy(haystack: &str, needle: &str) -> (r: bool)
        ensures
            r == search::fuzzy_match(haystack@, needle@),
    {
        search::fuzzy(haystack, needle)
    }

    /// Whether row `ri` is a session whose name matches the search.
    fn session_matches(&self, ri: usize) -> (r: bool)
        requires
            self@.in_range(),
            ri < self.rows.len(),
        ensures
            r == self@.session_matches(ri as int),
    {
        assert(self@.rows[ri as int] == self.rows@[ri as int]@);
        match &self.rows[ri] {
            Row::Session(i) => {
                assert(self@.sessions[*i as int] == self.sessions@[*i as int]@);
                search::fuzzy(self.sessions[*i].name.as_str(), self.search.as_str())
            },
            _ => false,
        }
    }

    /// Whether the search leaves the selectable row `sel_idx` visible. The
    /// entry for a new session is hidden by any search.
    pub fn matches(&self, sel_idx: usize) -> (r: bool)
        requires
            self@.in_range(),
            self.search@.len() == 0 || sel_idx < self.selectable.len(),
        ensures
            r == self@.matches(sel_idx as int),
    {
        if self.search.as_str().is_empty() {
            return true;
        }
        let ri = self.selectable[sel_idx];
        assert(self@.selectable[sel_idx as int] == ri);
        self.session_matches(ri)
    }

    /// Whether the search leaves row `ri` visible. A header is visible where a
    /// session of its group is.
    pub fn row_visible(&self, ri: usize) -> (r: bool)
        requires
            self@.in_range(),
            self.search@.len() == 0 || ri < self.rows.len(),
        ensures
            r == self@.row_visible(ri as int),
    {
        if self.search.as_str().is_empty() {
            return true;
        }
        if self.session_matches(ri) {
            return true;
        }
        assert(self@.rows[ri as int] == self.rows@[ri as int]@);
        match &self.rows[ri] {
            Row::Header(_) => {
                let mut k: usize = ri + 1;
                while k < self.rows.len()
                    invariant
                        ri < k <= self.rows.len(),
                        self@.in_range(),
                        self@.rows[ri as int] is Header,
                        self.search@.len() > 0,
                        forall|m: int| ri < m < k ==> !(#[trigger] self@.rows[m] is Header),
                        forall|m: int| ri < m < k ==> !self@.session_matches(m),
                    decreases self.rows.len() - k,
                {
                    assert(self@.rows[k as int] == self.rows@[k as int]@);
                    match &self.rows[k] {
                        Row::Header(_) => {
                            assert forall|m: int| #[trigger]
                                in_group(self@.rows, ri as int, m) implies m < k by {
                                if m > k {
                                    assert(!(self@.rows[k as int] is Header));
                                }
                            }
                            return false;
                        },
                        Row::Session(_) => {
                            if self.session_matches(k) {
                                assert(in_group(self@.rows, ri as int, k as int));
                                return true;
                            }
                        },
                        Row::New => {},
                    }
                    k += 1;
                }
                false
            },
            _ => false,
        }
    }

    /// How many sessions of the group after row `ri` are visible.
    pub fn group_visible_count(&self, ri: usize) -> (r: usize)
        requires
            self@.in_range(),
            ri < usize::MAX,
        ensures
            r == self@.group_visible_count(ri as int),
    {
        let mut n: usize = 0;
        let mut k: usize = ri + 1;
        while k < self.rows.len()
            invariant
                ri < k,
                ri < self.rows.len() ==> k <= self.rows.len(),
                ri >= self.rows.len() ==> k == ri + 1,
                self@.in_range(),
                forall|m: int|
                    ri < m < k && m < self.rows.len() ==> !(#[trigger] self@.rows[m] is Header),
                n == self@.visible_before(ri as int, k as int),
                n < k - ri,
            decreases self.rows.len() - k,
        {
            assert(self@.rows[k as int] == self.rows@[k as int]@);
            match &self.rows[k] {
                Row::Header(_) => {
                    proof {
                        lemma_count_stops(
                            self@,
                            ri as int,
                            k as int,
                            self.rows.len() as int,
                        );
                    }
                    return n;
                },
                Row::Session(_) => {
                    assert(in_group(self@.rows, ri as int, k as int));
                    if self.row_visible(k) {
                        n += 1;
                    }
                },
                Row::New => {},
            }
            k += 1;
        }
        n
    }

    /// Whether no visible session of its group follows row `ri`.
    pub fn is_last_visible_in_group(&self, ri: usize) -> (r: bool)
        requires
            self@.in_range(),
            ri < usize::MAX,
        ensures
            r == self@.last_visible_in_group(ri as int),
    {
        let mut k: usize = ri + 1;
        while k < self.rows.len()
            invariant
                ri < k,
                self@.in_range(),
                forall|m: int|
                    ri < m < k && m < self.rows.len() ==> !(#[trigger] self@.rows[m] is Header),
                forall|m: int|
                    ri < m < k && m < self.rows.len() ==> !(#[trigger] in_group(
                        self@.rows,
                        ri as int,
                        m,
                    ) && self@.row_visible(m)),
            decreases self.rows.len() - k,
        {
            assert(self@.rows[k as int] == self.rows@[k as int]@);
            match &self.rows[k] {
                Row::Header(_) => {
                    return true;
                },
                Row::Session(_) => {
                    if self.row_visible(k) {
                        assert(in_group(self@.rows, ri as int, k as int));
                        return false;
                    }
                },
                Row::New => {},
            }
            k += 1;
        }
        true
    }
}

// --- Where the cursor goes ---

impl AppView {
    /// Whether the cursor stands on a selectable row, where there is one.
    pub open spec fn cursor_valid(self) -> bool {
        self.selectable.len() > 0 ==> 0 <= self.cursor < self.selectable.len()
    }

    /// The selectable row `steps` below the cursor; behind the last comes the
    /// first.
    pub open spec fn below(self, steps: int) -> int {
        (self.cursor + steps) % (self.selectable.len() as int)
    }

    /// The selectable row `steps` above the cursor; before the first comes the
    /// last.
    pub open spec fn above(self, steps: int) -> int {
        (self.cursor - steps) % (self.selectable.len() as int)
    }

    /// The least number of steps down, `from` or more, that ends on a visible
    /// row or all the way round.
    pub open spec fn steps_down(self, from: int) -> int
        decreases self.selectable.len() - from,
    {
        if from >= self.selectable.len() || self.matches(self.below(from)) {
            from
        } else {
            self.steps_down(from + 1)
        }
    }

    /// The least number of steps up, `from` or more, that ends on a visible
    /// row or all the way round.
    pub open spec fn steps_up(self, from: int) -> int
        decreases self.selectable.len() - from,
    {
        if from >= self.selectable.len() || self.matches(self.above(from)) {
            from
        } else {
            self.steps_up(from + 1)
        }
    }

    /// The cursor on the next visible row below; where there is none, it
    /// stays.
    pub open spec fn nav_down(self) -> AppView {
        if self.selectable.len() == 0 {
            self
        } else {
            AppView { cursor: self.below(self.steps_down(1)), ..self }
        }
    }

    /// The cursor on the next visible row above; where there is none, it
    /// stays.
    pub open spec fn nav_up(self) -> AppView {
        if self.selectable.len() == 0 {
            self
        } else {
            AppView { cursor: self.above(self.steps_up(1)), ..self }
        }
    }

    /// The first selectable row from `from` on that is visible, or how many
    /// there are.
    pub open spec fn first_match(self, from: int) -> int
        decreases self.selectable.len() - from,
    {
        if from >= self.selectable.len() || self.matches(from) {
            from
        } else {
            self.first_match(from + 1)
        }
    }

    /// The cursor on the first visible row; where there is none, it stays.
    pub open spec fn jumped(self) -> AppView {
        if self.first_match(0) < self.selectable.len() {
            AppView { cursor: self.first_match(0), ..self }
        } else {
            self
        }
    }
}

/// One row further down or up, round the ends.
proof fn lemma_one_step(cursor: int, steps: int, len: int)
    requires
        0 <= cursor < len,
        0 <= steps < len,
    ensures
        (cursor + steps + 1) % len == (if (cursor + steps) % len + 1 >= len {
            0
        } else {
            (cursor + steps) % len + 1
        }),
        (cursor - steps - 1) % len == (if (cursor - steps) % len == 0 {
            len - 1
        } else {
            (cursor - steps) % len - 1
        }),
        0 <= (cursor + steps) % len < len,
        0 <= (cursor - steps) % len < len,
        (cursor + len) % len == cursor,
        (cursor - len) % len == cursor,
        steps > 0 ==> (cursor + steps) % len != cursor,
        steps > 0 ==> (cursor - steps) % len != cursor,
{
    broadcast use vstd::arithmetic::div_mod::group_mod_properties;
    assert((cursor + steps) % len == if cursor + steps < len {
        cursor + steps
    } else {
        cursor + steps - len
    }) by {
        if cursor + steps < len {
            vstd::arithmetic::div_mod::lemma_small_mod((cursor + steps) as nat, len as nat);
        } else {
            vstd::arithmetic::div_mod::lemma_small_mod((cursor + steps - len) as nat, len as nat);
            vstd::arithmetic::div_mod::lemma_mod_sub_multiples_vanish(cursor + steps, len);
        }
    }
    assert((cursor + steps + 1) % len == if cursor + steps + 1 < len {
        cursor + steps + 1
    } else {
        cursor + steps + 1 - len
    }) by {
        if cursor + steps + 1 < len {
            vstd::arithmetic::div_mod::lemma_small_mod((cursor + steps + 1) as nat, len as nat);
        } else {
            vstd::arithmetic::div_mod::lemma_mod_sub_multiples_vanish(cursor + steps + 1, len);
            vstd::arithmetic::div_mod::lemma_small_mod(
                (cursor + steps + 1 - len) as nat,
                len as nat,
            );
        }
    }
    assert((cursor - steps) % len == if cursor >= steps {
        cursor - steps
    } else {
        cursor - steps + len
    }) by {
        if cursor >= steps {
            vstd::arithmetic::div_mod::lemma_small_mod((cursor - steps) as nat, len as nat);
        } else {
            vstd::arithmetic::div_mod::lemma_mod_add_multiples_vanish(cursor - steps, len);
            vstd::arithmetic::div_mod::lemma_small_mod((cursor - steps + len) as nat, len as nat);
        }
    }
    assert((cursor - steps - 1) % len == if cursor >= steps + 1 {
        cursor - steps - 1
    } else {
        cursor - steps - 1 + len
    }) by {
        if cursor >= steps + 1 {
            vstd::arithmetic::div_mod::lemma_small_mod((cursor - steps - 1) as nat, len as nat);
        } else {
            vstd::arithmetic::div_mod::lemma_mod_add_multiples_vanish(cursor - steps - 1, len);
            vstd::arithmetic::div_mod::lemma_small_mod(
                (cursor - steps - 1 + len) as nat,
                len as nat,
            );
        }
    }
    vstd::arithmetic::div_mod::lemma_small_mod(cursor as nat, len as nat);
    vstd::arithmetic::div_mod::lemma_mod_add_multiples_vanish(cursor, len);
    vstd::arithmetic::div_mod::lemma_mod_sub_multiples_vanish(cursor, len);
}

impl App {
    /// Moves the cursor to the next visible row below.
    pub fn nav_down(&mut self)
        requires
            old(self)@.in_range(),
            old(self)@.cursor_valid(),
        ensures
            final(self)@ == old(self)@.nav_down(),
            final(self)@.cursor_valid(),
    {
        if self.selectable.len() == 0 {
            return;
        }
        let ghost before = self@;
        let start = self.cursor;
        let ghost mut steps: int = 0;
        let ghost len = self.selectable.len() as int;
        proof {
            lemma_one_step(start as int, 0, len);
            vstd::arithmetic::div_mod::lemma_small_mod(start as nat, len as nat);
        }
        loop
            invariant_except_break
                before.steps_down(1) == before.steps_down(steps + 1),
                0 <= steps < len,
                self@ == (AppView { cursor: before.below(steps), ..before }),
            invariant
                len == before.selectable.len(),
                before == old(self)@,
                before.in_range(),
                self.selectable.len() == len,
                start == before.cursor,
                0 <= start < len,
            ensures
                self@ == before.nav_down(),
                self.cursor < len,
            decreases len - steps,
        {
            proof {
                lemma_one_step(start as int, steps, len);
            }
            self.cursor = if self.cursor + 1 >= self.selectable.len() {
                0
            } else {
                self.cursor + 1
            };
            assert(self@ =~= (AppView { cursor: before.below(steps + 1), ..before }));
            if self.cursor == start {
                proof {
                    if steps + 1 < len {
                        lemma_one_step(start as int, steps + 1, len);
                    }
                    assert(before.steps_down(steps + 1) == len);
                }
                break;
            }
            assert(steps + 1 < len);
            assert(self@.matches(self.cursor as int) == before.matches(before.below(steps + 1)));
            if self.matches(self.cursor) {
                break;
            }
            proof {
                steps = steps + 1;
            }
        }
    }

    /// Moves the cursor to the next visible row above.
    pub fn nav_up(&mut self)
        requires
            old(self)@.in_range(),
            old(self)@.cursor_valid(),
        ensures
            final(self)@ == old(self)@.nav_up(),
            final(self)@.cursor_valid(),
    {
        if self.selectable.len() == 0 {
            return;
        }
        let ghost before = self@;
        let start = self.cursor;
        let ghost mut steps: int = 0;
        let ghost len = self.selectable.len() as int;
        proof {
            lemma_one_step(start as int, 0, len);
            vstd::arithmetic::div_mod::lemma_small_mod(start as nat, len as nat);
        }
        loop
            invariant_except_break
                before.steps_up(1) == before.steps_up(steps + 1),
                0 <= steps < len,
                self@ == (AppView { cursor: before.above(steps), ..before }),
            invariant
                len == before.selectable.len(),
                before == old(self)@,
                before.in_range(),
                self.selectable.len() == len,
                start == before.cursor,
                0 <= start < len,
            ensures
                self@ == before.nav_up(),
                self.cursor < len,
            decreases len - steps,
        {
            proof {
                lemma_one_step(start as int, steps, len);
            }
            self.cursor = if self.cursor == 0 {
                self.selectable.len() - 1
            } else {
                self.cursor - 1
            };
            assert(self@ =~= (AppView { cursor: before.above(steps + 1), ..before }));
            if self.cursor == start {
                proof {
                    if steps + 1 < len {
                        lemma_one_step(start as int, steps + 1, len);
                    }
                    assert(before.steps_up(steps + 1) == len);
                }
                break;
            }
            assert(steps + 1 < len);
            assert(self@.matches(self.cursor as int) == before.matches(before.above(steps + 1)));
            if self.matches(self.cursor) {
                break;
            }
            proof {
                steps = steps + 1;
            }
        }
    }

    /// Moves the cursor to the first visible row.
    pub fn jump_to_first_match(&mut self)
        requires
            old(self)@.in_range(),
        ensures
            final(self)@ == old(self)@.jumped(),
    {
        let mut i: usize = 0;
        while i < self.selectable.len()
            invariant
                i <= self.selectable.len(),
                *self == *old(self),
                self@.in_range(),
                self@.first_match(0) == self@.first_match(i as int),
            decreases self.selectable.len() - i,
        {
            if self.matches(i) {
                let ghost before = self@;
                self.cursor = i;
                assert(self@ =~= (AppView { cursor: i as int, ..before }));
                return;
            }
            i += 1;
        }
    }
}

// --- Laws ---

/// Where the search for a visible row ends.
proof fn lemma_first_match(app: AppView, from: int)
    requires
        0 <= from <= app.selectable.len(),
    ensures
        from <= app.first_match(from) <= app.selectable.len(),
        app.first_match(from) < app.selectable.len() ==> app.matches(app.first_match(from)),
        forall|k: int| from <= k < app.first_match(from) ==> !app.matches(k),
    decreases app.selectable.len() - from,
{
    if from < app.selectable.len() && !app.matches(from) {
        lemma_first_match(app, from + 1);
    }
}

/// Moving down, up or to the first match changes the cursor alone, and leaves
/// it on a row.
pub proof fn moving_keeps_the_cursor_valid(app: AppView)
    requires
        app.cursor_valid(),
    ensures
        app.nav_down().cursor_valid(),
        app.nav_up().cursor_valid(),
        app.jumped().cursor_valid(),
        app.nav_down() == (AppView { cursor: app.nav_down().cursor, ..app }),
        app.nav_up() == (AppView { cursor: app.nav_up().cursor, ..app }),
        app.jumped() == (AppView { cursor: app.jumped().cursor, ..app }),
{
    lemma_first_match(app, 0);
    if app.selectable.len() > 0 {
        let len = app.selectable.len() as int;
        vstd::arithmetic::div_mod::lemma_mod_bound(app.cursor + app.steps_down(1), len);
        vstd::arithmetic::div_mod::lemma_mod_bound(app.cursor - app.steps_up(1), len);
    }
}

/// The cursor lands on the next visible row below, or above, past hidden ones
/// only; where no other row is visible, it stays.
pub proof fn moving_skips_hidden_rows(app: AppView)
    requires
        app.selectable.len() > 0,
        app.cursor_valid(),
    ensures
        app.nav_down().cursor == app.cursor || app.matches(app.nav_down().cursor),
        forall|k: int| 1 <= k < app.steps_down(1) ==> !app.matches(#[trigger] app.below(k)),
        app.nav_up().cursor == app.cursor || app.matches(app.nav_up().cursor),
        forall|k: int| 1 <= k < app.steps_up(1) ==> !app.matches(#[trigger] app.above(k)),
{
    lemma_steps(app, 1);
    lemma_one_step(app.cursor, 0, app.selectable.len() as int);
}

/// Where the steps in either direction end.
proof fn lemma_steps(app: AppView, from: int)
    requires
        app.selectable.len() > 0,
        0 <= from <= app.selectable.len(),
    ensures
        from <= app.steps_down(from) <= app.selectable.len(),
        app.steps_down(from) < app.selectable.len() ==> app.matches(
            app.below(app.steps_down(from)),
        ),
        forall|k: int| from <= k < app.steps_down(from) ==> !app.matches(#[trigger] app.below(k)),
        from <= app.steps_up(from) <= app.selectable.len(),
        app.steps_up(from) < app.selectable.len() ==> app.matches(app.above(app.steps_up(from))),
        forall|k: int| from <= k < app.steps_up(from) ==> !app.matches(#[trigger] app.above(k)),
    decreases app.selectable.len() - from,
{
    if from < app.selectable.len() {
        lemma_steps(app, from + 1);
    }
}

/// The steps end where the first visible row is.
proof fn lemma_steps_end(app: AppView, from: int, end: int)
    requires
        0 <= from <= end <= app.selectable.len(),
    ensures
        (forall|k: int| from <= k < end ==> !app.matches(#[trigger] app.below(k))) && (end
            == app.selectable.len() || app.matches(app.below(end))) ==> app.steps_down(from)
            == end,
        (forall|k: int| from <= k < end ==> !app.matches(#[trigger] app.above(k))) && (end
            == app.selectable.len() || app.matches(app.above(end))) ==> app.steps_up(from) == end,
    decreases end - from,
{
    if from < end {
        lemma_steps_end(app, from + 1, end);
        if !app.matches(app.below(from)) {
            assert(app.steps_down(from) == app.steps_down(from + 1));
        }
        if !app.matches(app.above(from)) {
            assert(app.steps_up(from) == app.steps_up(from + 1));
        }
    }
}

/// Up undoes down and down undoes up, where the cursor stands on a visible
/// row.
pub proof fn up_undoes_down(app: AppView)
    requires
        app.selectable.len() > 0,
        app.cursor_valid(),
        app.matches(app.cursor),
    ensures
        app.nav_down().nav_up() == app,
        app.nav_up().nav_down() == app,
{
    let len = app.selectable.len() as int;
    lemma_steps(app, 1);
    vstd::arithmetic::div_mod::lemma_small_mod(app.cursor as nat, len as nat);
    let d = app.steps_down(1);
    let down = app.nav_down();
    assert forall|k: int| 1 <= k <= d implies #[trigger] down.above(k) == app.below(d - k)
        && down.matches(down.above(k)) == app.matches(app.below(d - k)) by {
        lemma_back(app.cursor, d, k, len);
    }
    assert forall|k: int| 1 <= k < d implies !down.matches(#[trigger] down.above(k)) by {
        assert(!app.matches(app.below(d - k)));
    }
    lemma_steps_end(down, 1, d);
    assert(down.above(d) == app.below(0));
    let u = app.steps_up(1);
    let up = app.nav_up();
    assert forall|k: int| 1 <= k <= u implies #[trigger] up.below(k) == app.above(u - k)
        && up.matches(up.below(k)) == app.matches(app.above(u - k)) by {
        lemma_back(app.cursor, -u, -k, len);
    }
    assert forall|k: int| 1 <= k < u implies !up.matches(#[trigger] up.below(k)) by {
        assert(!app.matches(app.above(u - k)));
    }
    lemma_steps_end(up, 1, u);
    assert(up.below(u) == app.above(0));
}

/// Some steps forward and some of them back.
proof fn lemma_back(cursor: int, forward: int, back: int, len: int)
    requires
        len > 0,
    ensures
        ((cursor + forward) % len - back) % len == (cursor + (forward - back)) % len,
        (cursor + forward) % len == (cursor - (-forward)) % len,
{
    vstd::arithmetic::div_mod::lemma_sub_mod_noop(cursor + forward, back, len);
    vstd::arithmetic::div_mod::lemma_sub_mod_noop((cursor + forward) % len, back, len);
    vstd::arithmetic::div_mod::lemma_mod_twice(cursor + forward, len);
}

/// Without a search every row is visible, and the cursor moves by one row,
/// from the last to the first and back.
pub proof fn without_a_search_nothing_is_skipped(app: AppView, ri: int)
    requires
        app.selectable.len() > 0,
        app.cursor_valid(),
        app.search.len() == 0,
    ensures
        app.row_visible(ri),
        app.nav_down().cursor == if app.cursor + 1 == app.selectable.len() {
            0
        } else {
            app.cursor + 1
        },
        app.nav_up().cursor == if app.cursor == 0 {
            app.selectable.len() - 1
        } else {
            app.cursor - 1
        },
{
    let len = app.selectable.len() as int;
    lemma_one_step(app.cursor, 0, len);
    vstd::arithmetic::div_mod::lemma_small_mod(app.cursor as nat, len as nat);
    if len > 1 {
        assert(app.steps_down(1) == 1);
        assert(app.steps_up(1) == 1);
    }
}

/// A search hides the entry for a new session. It shows the sessions whose
/// names match, and the headers of groups with such a session.
pub proof fn what_a_search_shows(app: AppView, ri: int)
    requires
        app.search.len() > 0,
        0 <= ri < app.rows.len(),
    ensures
        app.rows[ri] is New ==> !app.row_visible(ri),
        app.rows[ri] matches RowView::Session(i) ==> app.row_visible(ri) == search::fuzzy_match(
            app.sessions[i].name,
            app.search,
        ),
        app.rows[ri] is Header ==> app.row_visible(ri) == (app.group_visible_count(ri) > 0),
{
    if app.rows[ri] is Header {
        lemma_count_positive(app, ri, app.rows.len() as int);
        if app.row_visible(ri) {
            let k = choose|k: int| #[trigger]
                in_group(app.rows, ri, k) && app.session_matches(k);
            assert(app.row_visible(k));
        }
        if app.group_visible_count(ri) > 0 {
            let k = choose|k: int|
                ri < k < app.rows.len() && #[trigger] in_group(app.rows, ri, k)
                    && app.row_visible(k);
            assert(app.session_matches(k));
        }
    }
}

/// Something is counted where something is there to count.
proof fn lemma_count_positive(app: AppView, ri: int, end: int)
    requires
        ri < end,
    ensures
        app.visible_before(ri, end) > 0 <==> exists|k: int|
            ri < k < end && #[trigger] in_group(app.rows, ri, k) && app.row_visible(k),
    decreases end - ri,
{
    if end > ri + 1 {
        lemma_count_positive(app, ri, end - 1);
        if in_group(app.rows, ri, end - 1) && app.row_visible(end - 1) {
            assert(app.visible_before(ri, end) > 0);
        } else if app.visible_before(ri, end) > 0 {
            let k = choose|k: int|
                ri < k < end - 1 && #[trigger] in_group(app.rows, ri, k) && app.row_visible(k);
            assert(in_group(app.rows, ri, k));
        }
    }
}

/// After a jump the cursor stands on the first visible row, where there is
/// one.
pub proof fn jumping_finds_the_first_match(app: AppView, k: int)
    requires
        0 <= k < app.selectable.len(),
        app.matches(k),
    ensures
        app.matches(app.jumped().cursor),
        0 <= app.jumped().cursor <= k,
{
    lemma_first_match(app, 0);
}

/// What is typed on hides rows and shows none, where the search is ASCII text.
pub proof fn typing_only_hides(app: AppView, c: char, ri: int)
    requires
        search::is_ascii(app.search.push(c)),
        (AppView { search: app.search.push(c), ..app }).row_visible(ri),
    ensures
        app.row_visible(ri),
{
    let longer = AppView { search: app.search.push(c), ..app };
    assert forall|k: int| longer.session_matches(k) implies app.session_matches(k) by {
        if let RowView::Session(i) = app.rows[k] {
            search::typing_narrows(app.sessions[i].name, app.search, c);
        }
    }
    if !longer.session_matches(ri) {
        let k = choose|k: int| #[trigger]
            in_group(longer.rows, ri, k) && longer.session_matches(k);
        assert(in_group(app.rows, ri, k) && app.session_matches(k));
    }
}

impl AppView {
    /// Whether the search leaves the `k`-th row that the cursor can stand on: any
    /// where nothing is searched for, else a session whose name matches.
    pub open spec fn stands_visible(self, k: int) -> bool {
        ||| self.search.len() == 0
        ||| self.rows[self.selectable[k]] matches RowView::Session(i) && search::fuzzy_match(
            self.sessions[i].name,
            self.search,
        )
    }
}

/// How far row `b` is below row `a` where the first row follows the last.
pub open spec fn distance_down(a: int, b: int, len: int) -> int {
    if a < b {
        b - a
    } else {
        b - a + len
    }
}

/// A number of steps down or up, round the ends.
proof fn lemma_steps_lead(cursor: int, steps: int, len: int)
    requires
        0 <= cursor < len,
        1 <= steps <= len,
    ensures
        (cursor + steps) % len == if cursor + steps < len {
            cursor + steps
        } else {
            cursor + steps - len
        },
        (cursor - steps) % len == if cursor >= steps {
            cursor - steps
        } else {
            cursor - steps + len
        },
{
    if cursor + steps < len {
        vstd::arithmetic::div_mod::lemma_small_mod((cursor + steps) as nat, len as nat);
    } else {
        vstd::arithmetic::div_mod::lemma_mod_sub_multiples_vanish(cursor + steps, len);
        vstd::arithmetic::div_mod::lemma_small_mod((cursor + steps - len) as nat, len as nat);
    }
    if cursor >= steps {
        vstd::arithmetic::div_mod::lemma_small_mod((cursor - steps) as nat, len as nat);
    } else {
        vstd::arithmetic::div_mod::lemma_mod_add_multiples_vanish(cursor - steps, len);
        vstd::arithmetic::div_mod::lemma_small_mod((cursor - steps + len) as nat, len as nat);
    }
}

/// The cursor goes down to the nearest visible row below it, and up to the
/// nearest above it, the last row and the first being neighbours: no visible row
/// is nearer. It moves wherever there is another visible row.
pub proof fn the_cursor_goes_to_the_nearest_visible_row(app: AppView, k: int)
    requires
        0 <= app.cursor < app.selectable.len(),
        0 <= k < app.selectable.len(),
        k != app.cursor,
        app.stands_visible(k),
    ensures
        ({
            let len = app.selectable.len() as int;
            let down = app.nav_down().cursor;
            let up = app.nav_up().cursor;
            &&& 0 <= down < len && down != app.cursor && app.stands_visible(down)
            &&& distance_down(app.cursor, down, len) <= distance_down(app.cursor, k, len)
            &&& 0 <= up < len && up != app.cursor && app.stands_visible(up)
            &&& distance_down(up, app.cursor, len) <= distance_down(k, app.cursor, len)
        }),
{
    let len = app.selectable.len() as int;
    lemma_steps(app, 1);
    let to_k = distance_down(app.cursor, k, len);
    let from_k = distance_down(k, app.cursor, len);
    lemma_steps_lead(app.cursor, to_k, len);
    lemma_steps_lead(app.cursor, from_k, len);
    assert(app.below(to_k) == k);
    assert(app.above(from_k) == k);
    assert(app.matches(k));
    let d = app.steps_down(1);
    let u = app.steps_up(1);
    assert(d <= to_k) by {
        if d > to_k {
            assert(!app.matches(app.below(to_k)));
        }
    }
    assert(u <= from_k) by {
        if u > from_k {
            assert(!app.matches(app.above(from_k)));
        }
    }
    lemma_steps_lead(app.cursor, d, len);
    lemma_steps_lead(app.cursor, u, len);
}

/// Where no other row is visible, the cursor stays.
pub proof fn the_cursor_stays_where_nothing_else_is_visible(app: AppView)
    requires
        app.selectable.len() > 0 ==> 0 <= app.cursor < app.selectable.len(),
        forall|k: int|
            0 <= k < app.selectable.len() && k != app.cursor ==> !app.stands_visible(k),
    ensures
        app.nav_down() == app,
        app.nav_up() == app,
{
    if app.selectable.len() > 0 {
        let len = app.selectable.len() as int;
        lemma_steps(app, 1);
        let d = app.steps_down(1);
        let u = app.steps_up(1);
        lemma_steps_lead(app.cursor, d, len);
        lemma_steps_lead(app.cursor, u, len);
        if d < len {
            assert(app.stands_visible(app.below(d)));
        }
        if u < len {
            assert(app.stands_visible(app.above(u)));
        }
        assert(app.nav_down() =~= app);
        assert(app.nav_up() =~= app);
    }
}

/// A jump leads to the first visible row of all, and changes nothing where no
/// row is visible.
pub proof fn a_jump_leads_to_the_first_visible_row(app: AppView)
    ensures
        forall|k: int|
            0 <= k < app.selectable.len() && app.stands_visible(k) && (forall|j: int|
                0 <= j < k ==> !app.stands_visible(j)) ==> app.jumped().cursor == k,
        (forall|k: int| 0 <= k < app.selectable.len() ==> !app.stands_visible(k))
            ==> app.jumped() == app,
        app.jumped() == (AppView { cursor: app.jumped().cursor, ..app }),
{
    lemma_first_match(app, 0);
    let first = app.first_match(0);
    if first < app.selectable.len() {
        assert(app.stands_visible(first));
    }
    assert forall|k: int|
        0 <= k < app.selectable.len() && app.stands_visible(k) && (forall|j: int|
            0 <= j < k ==> !app.stands_visible(j)) implies app.jumped().cursor == k by {
        assert(app.matches(k));
    }
}

}
