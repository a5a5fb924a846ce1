//! Sets of names: one that remembers the order of insertion, and the sorted
//! list of the distinct names of a list.
use vstd::prelude::*;
use vstd::string::*;
use crate::text;

verus! {

// --- Lists of names ---

/// Where `name` first stands in the list, or the length of the list.
pub open spec fn first_place(list: Seq<Seq<char>>, name: Seq<char>) -> int
    decreases list.len(),
{
    if list.len() == 0 || list[0] == name {
        0
    } else {
        1 + first_place(list.drop_first(), name)
    }
}

/// The place that holds `name` with no `name` before it is the one that
/// [`first_place`] names.
pub proof fn lemma_first_place(list: Seq<Seq<char>>, name: Seq<char>, i: int)
    requires
        0 <= i <= list.len(),
        i < list.len() ==> list[i] == name,
        forall|j: int| 0 <= j < i ==> list[j] != name,
    ensures
        first_place(list, name) == i,
    decreases list.len(),
{
    if i > 0 {
        assert forall|j: int| 0 <= j < i - 1 implies list.drop_first()[j] != name by {
            assert(list.drop_first()[j] == list[j + 1]);
        }
        lemma_first_place(list.drop_first(), name, i - 1);
    }
}

/// Where [`first_place`] leads.
pub proof fn lemma_first_place_found(list: Seq<Seq<char>>, name: Seq<char>)
    ensures
        0 <= first_place(list, name) <= list.len(),
        first_place(list, name) < list.len() <==> list.contains(name),
        list.contains(name) ==> list[first_place(list, name)] == name,
    decreases list.len(),
{
    if list.len() > 0 && list[0] != name {
        let rest = list.drop_first();
        lemma_first_place_found(rest, name);
        if list.contains(name) {
            let k = choose|k: int| 0 <= k < list.len() && list[k] == name;
            assert(rest[k - 1] == name);
        }
        if rest.contains(name) {
            let k = choose|k: int| 0 <= k < rest.len() && rest[k] == name;
            assert(list[k + 1] == name);
        }
    }
}

/// Where `name` first stands in the list.
pub fn position(list: &Vec<String>, name: &str) -> (r: Option<usize>)
    ensures
        match r {
            Some(i) => i < list.len() && text::texts(list@)[i as int] == name@ && forall|j: int|
                0 <= j < i ==> text::texts(list@)[j] != name@,
            None => !text::texts(list@).contains(name@),
        },
        match r {
            Some(i) => first_place(text::texts(list@), name@) == i,
            None => first_place(text::texts(list@), name@) == list.len(),
        },
{
    let mut i: usize = 0;
    while i < list.len()
        invariant
            i <= list.len(),
            forall|j: int| 0 <= j < i ==> text::texts(list@)[j] != name@,
        decreases list.len() - i,
    {
        assert(text::texts(list@)[i as int] == list@[i as int]@);
        if text::same_text(list[i].as_str(), name) {
            proof {
                lemma_first_place(text::texts(list@), name@, i as int);
            }
            return Some(i);
        }
        i += 1;
    }
    proof {
        lemma_first_place(text::texts(list@), name@, i as int);
    }
    None
}

/// A copy of the list.
pub fn copy_names(list: &Vec<String>) -> (r: Vec<String>)
    ensures
        text::texts(r@) == text::texts(list@),
        r@ == list@,
{
    let mut out: Vec<String> = Vec::new();
    let mut i: usize = 0;
    while i < list.len()
        invariant
            i <= list.len(),
            out@ == list@.take(i as int),
        decreases list.len() - i,
    {
        out.push(list[i].clone());
        i += 1;
    }
    assert(list@.take(i as int) =~= list@);
    out
}

// --- The sorted list of distinct names ---

/// Whether `sorted` lists the names that occur in `list`, each once, in
/// ascending order.
pub open spec fn is_sorted_set(sorted: Seq<Seq<char>>, list: Seq<Seq<char>>) -> bool {
    &&& forall|n: Seq<char>| #[trigger] sorted.contains(n) <==> list.contains(n)
    &&& forall|a: int, b: int|
        0 <= a < b < sorted.len() ==> text::text_before(#[trigger] sorted[a], #[trigger] sorted[b])
}

/// The names that occur in `list`, each once, in ascending order.
pub open spec fn sorted_set(list: Seq<Seq<char>>) -> Seq<Seq<char>> {
    choose|sorted: Seq<Seq<char>>| is_sorted_set(sorted, list)
}

/// There is one sorted list only of the names that two lists hold alike.
pub proof fn sorted_set_is_unique(
    a: Seq<Seq<char>>,
    b: Seq<Seq<char>>,
    list: Seq<Seq<char>>,
)
    requires
        is_sorted_set(a, list),
        is_sorted_set(b, list),
    ensures
        a == b,
{
    lemma_same_prefix(a, b, list, a.len() as int);
    lemma_same_prefix(b, a, list, b.len() as int);
    assert(a =~= b);
}

/// Two sorted lists of the same names agree on their first `n` places.
proof fn lemma_same_prefix(
    a: Seq<Seq<char>>,
    b: Seq<Seq<char>>,
    list: Seq<Seq<char>>,
    n: int,
)
    requires
        is_sorted_set(a, list),
        is_sorted_set(b, list),
        0 <= n <= a.len(),
    ensures
        n <= b.len(),
        forall|k: int| 0 <= k < n ==> a[k] == b[k],
    decreases n,
{
    if n > 0 {
        let k = n - 1;
        lemma_same_prefix(a, b, list, k);
        assert(a.contains(a[k]));
        assert(b.contains(a[k]));
        let m = choose|m: int| 0 <= m < b.len() && b[m] == a[k];
        text::lemma_text_before_irreflexive(a[k]);
        if m < k {
            assert(text::text_before(a[m], a[k]));
        }
        if m > k {
            assert(text::text_before(b[k], b[m]));
            assert(b.contains(b[k]));
            assert(a.contains(b[k]));
            let j = choose|j: int| 0 <= j < a.len() && a[j] == b[k];
            text::lemma_text_before_irreflexive(b[k]);
            if j < k {
                assert(text::text_before(b[j], b[k]));
            } else if j > k {
                assert(text::text_before(a[k], a[j]));
                text::lemma_text_before_transitive(a[k], b[k], a[k]);
            }
        }
    }
}

/// Putting `name` at place `at` of a sorted list keeps it sorted, where what
/// comes before sorts before `name` and what follows does not.
proof fn lemma_insert_sorted(
    sorted: Seq<Seq<char>>,
    list: Seq<Seq<char>>,
    at: int,
    name: Seq<char>,
)
    requires
        is_sorted_set(sorted, list),
        0 <= at <= sorted.len(),
        forall|a: int| 0 <= a < at ==> text::text_before(#[trigger] sorted[a], name),
        at < sorted.len() ==> text::text_before(name, sorted[at]),
    ensures
        is_sorted_set(sorted.insert(at, name), list.push(name)),
{
    let longer = sorted.insert(at, name);
    let more = list.push(name);
    assert forall|a: int, b: int| 0 <= a < b < longer.len() implies text::text_before(
        #[trigger] longer[a],
        #[trigger] longer[b],
    ) by {
        let old_a = if a < at {
            a
        } else {
            a - 1
        };
        let old_b = if b < at {
            b
        } else {
            b - 1
        };
        if a != at {
            assert(longer[a] == sorted[old_a]);
        }
        if b != at {
            assert(longer[b] == sorted[old_b]);
        }
        if a == at && old_b > at {
            assert(text::text_before(sorted[at], sorted[old_b]));
            text::lemma_text_before_transitive(name, sorted[at], sorted[old_b]);
        }
    }
    assert forall|n: Seq<char>| #[trigger] longer.contains(n) <==> more.contains(n) by {
        assert(longer[at] == name);
        assert(more[list.len() as int] == name);
        if longer.contains(n) && n != name {
            let k = choose|k: int| 0 <= k < longer.len() && longer[k] == n;
            let old_k = if k < at {
                k
            } else {
                k - 1
            };
            assert(sorted[old_k] == n);
            assert(sorted.contains(n));
            let m = choose|m: int| 0 <= m < list.len() && list[m] == n;
            assert(more[m] == n);
        }
        if more.contains(n) && n != name {
            let m = choose|m: int| 0 <= m < more.len() && more[m] == n;
            assert(list[m] == n);
            assert(list.contains(n));
            assert(sorted.contains(n));
            let k = choose|k: int| 0 <= k < sorted.len() && sorted[k] == n;
            if k < at {
                assert(longer[k] == n);
            } else {
                assert(longer[k + 1] == n);
            }
        }
    }
}

/// A name that a list already holds changes nothing.
proof fn lemma_repeat_sorted(sorted: Seq<Seq<char>>, list: Seq<Seq<char>>, name: Seq<char>)
    requires
        is_sorted_set(sorted, list),
        sorted.contains(name),
    ensures
        is_sorted_set(sorted, list.push(name)),
{
    let more = list.push(name);
    assert forall|n: Seq<char>| #[trigger] sorted.contains(n) <==> more.contains(n) by {
        if sorted.contains(n) {
            let m = choose|m: int| 0 <= m < list.len() && list[m] == n;
            assert(more[m] == n);
        }
        if more.contains(n) && n != name {
            let m = choose|m: int| 0 <= m < more.len() && more[m] == n;
            assert(list[m] == n);
        }
    }
}

/// A place for `name` in a sorted list that does not hold it.
proof fn lemma_place(sorted: Seq<Seq<char>>, name: Seq<char>) -> (at: int)
    requires
        !sorted.contains(name),
    ensures
        0 <= at <= sorted.len(),
        forall|a: int| 0 <= a < at ==> text::text_before(#[trigger] sorted[a], name),
        at < sorted.len() ==> text::text_before(name, sorted[at]),
    decreases sorted.len(),
{
    if sorted.len() == 0 {
        0
    } else {
        let rest = sorted.drop_last();
        assert(!rest.contains(name)) by {
            if rest.contains(name) {
                let k = choose|k: int| 0 <= k < rest.len() && rest[k] == name;
                assert(sorted[k] == name);
            }
        }
        let at = lemma_place(rest, name);
        assert forall|a: int| 0 <= a < at implies text::text_before(
            #[trigger] sorted[a],
            name,
        ) by {
            assert(rest[a] == sorted[a]);
        }
        if at < rest.len() {
            assert(sorted[at] == rest[at]);
            at
        } else {
            assert(sorted.contains(sorted.last()));
            text::lemma_text_before_total(sorted.last(), name);
            if text::text_before(sorted.last(), name) {
                sorted.len() as int
            } else {
                at
            }
        }
    }
}

/// Every list has a sorted list of its distinct names.
proof fn lemma_some_sorted_set(list: Seq<Seq<char>>) -> (sorted: Seq<Seq<char>>)
    ensures
        is_sorted_set(sorted, list),
    decreases list.len(),
{
    if list.len() == 0 {
        assert(is_sorted_set(list, list));
        list
    } else {
        let name = list.last();
        let rest = lemma_some_sorted_set(list.drop_last());
        assert(list.drop_last().push(name) =~= list);
        if rest.contains(name) {
            lemma_repeat_sorted(rest, list.drop_last(), name);
            rest
        } else {
            let at = lemma_place(rest, name);
            lemma_insert_sorted(rest, list.drop_last(), at, name);
            rest.insert(at, name)
        }
    }
}

/// Every list has a sorted list of its distinct names, and [`sorted_set`] is
/// it.
pub proof fn sorted_set_exists(list: Seq<Seq<char>>)
    ensures
        is_sorted_set(sorted_set(list), list),
{
    let sorted = lemma_some_sorted_set(list);
    assert(is_sorted_set(sorted, list));
}

/// A sorted list holds each name once.
pub proof fn lemma_sorted_distinct(sorted: Seq<Seq<char>>, list: Seq<Seq<char>>)
    requires
        is_sorted_set(sorted, list),
    ensures
        sorted.no_duplicates(),
{
    assert forall|a: int, b: int| 0 <= a < sorted.len() && 0 <= b < sorted.len() && a
        != b implies sorted[a] != sorted[b] by {
        text::lemma_text_before_irreflexive(sorted[a]);
        if a < b {
            assert(text::text_before(sorted[a], sorted[b]));
        } else {
            assert(text::text_before(sorted[b], sorted[a]));
        }
    }
}

/// Puts `name` in its place in a sorted list, unless it is there already.
pub fn insert_sorted(sorted: &mut Vec<String>, name: String)
    ensures
        forall|list: Seq<Seq<char>>|
            #![trigger list.push(name@)]
            is_sorted_set(text::texts(old(sorted)@), list) ==> is_sorted_set(
                text::texts(final(sorted)@),
                list.push(name@),
            ),
{
    let ghost before = text::texts(sorted@);
    let mut at: usize = 0;
    while at < sorted.len() && text::sorts_before(sorted[at].as_str(), name.as_str())
        invariant
            at <= sorted.len(),
            before == text::texts(sorted@),
            forall|a: int| 0 <= a < at ==> text::text_before(#[trigger] before[a], name@),
        decreases sorted.len() - at,
    {
        at += 1;
    }
    if at < sorted.len() && text::same_text(sorted[at].as_str(), name.as_str()) {
        proof {
            assert(before[at as int] == name@);
            assert forall|list: Seq<Seq<char>>|
                #![trigger list.push(name@)]
                is_sorted_set(before, list) implies is_sorted_set(before, list.push(name@)) by {
                lemma_repeat_sorted(before, list, name@);
            }
        }
    } else {
        proof {
            if at < sorted.len() {
                assert(before[at as int] == sorted@[at as int]@);
                text::lemma_text_before_total(before[at as int], name@);
            }
        }
        let ghost added = name@;
        sorted.insert(at, name);
        proof {
            assert(text::texts(sorted@) =~= before.insert(at as int, added));
            assert forall|list: Seq<Seq<char>>|
                #![trigger list.push(added)]
                is_sorted_set(before, list) implies is_sorted_set(
                before.insert(at as int, added),
                list.push(added),
            ) by {
                lemma_insert_sorted(before, list, at as int, added);
            }
        }
    }
}

/// The names of the list, each once, in ascending order.
pub fn sort_names(list: &Vec<String>) -> (r: Vec<String>)
    ensures
        text::texts(r@) == sorted_set(text::texts(list@)),
        is_sorted_set(text::texts(r@), text::texts(list@)),
{
    let ghost all = text::texts(list@);
    let mut out: Vec<String> = Vec::new();
    let mut i: usize = 0;
    assert(is_sorted_set(text::texts(out@), all.take(0)));
    while i < list.len()
        invariant
            i <= list.len(),
            all == text::texts(list@),
            is_sorted_set(text::texts(out@), all.take(i as int)),
        decreases list.len() - i,
    {
        let name = list[i].clone();
        assert(all.take(i as int).push(name@) =~= all.take(i + 1));
        insert_sorted(&mut out, name);
        i += 1;
    }
    assert(all.take(i as int) =~= all);
    proof {
        sorted_set_is_unique(text::texts(out@), sorted_set(all), all);
    }
    out
}

// --- The set that remembers the order of insertion ---

/// A set of names. It holds each name once, in the order of insertion.
pub struct NameSet {
    names: Vec<String>,
}

impl View for NameSet {
    type V = Seq<Seq<char>>;

    closed spec fn view(&self) -> Seq<Seq<char>> {
        text::texts(self.names@)
    }
}

/// `set` with `name` added at its end, unless it holds the name already.
pub open spec fn set_insert(set: Seq<Seq<char>>, name: Seq<char>) -> Seq<Seq<char>> {
    if set.contains(name) {
        set
    } else {
        set.push(name)
    }
}

/// `set` without `name`.
pub open spec fn set_remove(set: Seq<Seq<char>>, name: Seq<char>) -> Seq<Seq<char>> {
    set.filter(|n: Seq<char>| n != name)
}

impl NameSet {
    #[verifier::type_invariant]
    closed spec fn holds_each_once(self) -> bool {
        text::texts(self.names@).no_duplicates()
    }

    /// The set without names.
    pub fn new() -> (r: NameSet)
        ensures
            r@ == Seq::<Seq<char>>::empty(),
    {
        let names: Vec<String> = Vec::new();
        assert(text::texts(names@) =~= Seq::empty());
        NameSet { names }
    }

    /// The set of the names of a list that holds each once, in its order.
    pub fn from_list(names: Vec<String>) -> (r: NameSet)
        requires
            text::texts(names@).no_duplicates(),
        ensures
            r@ == text::texts(names@),
    {
        NameSet { names }
    }

    /// How many names the set holds.
    pub fn len(&self) -> (r: usize)
        ensures
            r == self@.len(),
    {
        self.names.len()
    }

    /// Whether the set holds no name.
    pub fn is_empty(&self) -> (r: bool)
        ensures
            r == (self@.len() == 0),
    {
        self.names.len() == 0
    }

    /// Whether the set holds `name`.
    pub fn contains(&self, name: &str) -> (r: bool)
        ensures
            r == self@.contains(name@),
    {
        position(&self.names, name).is_some()
    }

    /// Adds `name`; returns whether it was new.
    pub fn insert(&mut self, name: String) -> (r: bool)
        ensures
            final(self)@ == set_insert(old(self)@, name@),
            r == !old(self)@.contains(name@),
    {
        proof {
            use_type_invariant(&*self);
        }
        if self.contains(name.as_str()) {
            return false;
        }
        let ghost before = self@;
        let mut names: Vec<String> = Vec::new();
        assert(text::texts(names@) =~= Seq::empty());
        std::mem::swap(&mut names, &mut self.names);
        let ghost added = name@;
        names.push(name);
        assert(text::texts(names@) =~= before.push(added));
        self.names = names;
        true
    }

    /// Takes `name` out; returns whether the set held it.
    pub fn remove(&mut self, name: &str) -> (r: bool)
        ensures
            final(self)@ == set_remove(old(self)@, name@),
            r == old(self)@.contains(name@),
    {
        proof {
            use_type_invariant(&*self);
        }
        let ghost before = self@;
        match position(&self.names, name) {
            Some(i) => {
                let mut names: Vec<String> = Vec::new();
                assert(text::texts(names@) =~= Seq::empty());
                std::mem::swap(&mut names, &mut self.names);
                names.remove(i);
                proof {
                    assert(text::texts(names@) =~= before.remove(i as int));
                    lemma_remove_is_filter(before, i as int);
                    assert(before[i as int] == name@);
                }
                self.names = names;
                true
            },
            None => {
                proof {
                    lemma_filter_absent(before, name@);
                }
                false
            },
        }
    }

    /// Takes all names out.
    pub fn clear(&mut self)
        ensures
            final(self)@ == Seq::<Seq<char>>::empty(),
    {
        let names: Vec<String> = Vec::new();
        assert(text::texts(names@) =~= Seq::empty());
        self.names = names;
    }

    /// The names, in the order of insertion.
    pub fn to_list(&self) -> (r: Vec<String>)
        ensures
            text::texts(r@) == self@,
            self@.no_duplicates(),
    {
        proof {
            use_type_invariant(self);
        }
        copy_names(&self.names)
    }
}

/// What a set holds once a name was taken out: the other names.
pub proof fn lemma_set_remove(list: Seq<Seq<char>>, name: Seq<char>, other: Seq<char>)
    ensures
        set_remove(list, name).contains(other) <==> other != name && list.contains(other),
    decreases list.len(),
{
    reveal(Seq::filter);
    let after = set_remove(list, name);
    if list.len() > 0 {
        let rest = list.drop_last();
        let above = set_remove(rest, name);
        lemma_set_remove(rest, name, other);
        assert(after == if list.last() != name {
            above.push(list.last())
        } else {
            above
        });
        if list.contains(other) && other != name {
            let k = choose|k: int| 0 <= k < list.len() && list[k] == other;
            if k < rest.len() {
                assert(rest[k] == other);
                let m = choose|m: int| 0 <= m < above.len() && above[m] == other;
                assert(after[m] == other);
            } else {
                assert(after[above.len() as int] == other);
            }
        }
        if after.contains(other) {
            let m = choose|m: int| 0 <= m < after.len() && after[m] == other;
            if m < above.len() {
                assert(above[m] == other);
                let k = choose|k: int| 0 <= k < rest.len() && rest[k] == other;
                assert(list[k] == other);
            } else {
                assert(list.last() == other);
                assert(list[list.len() - 1] == other);
            }
        }
    }
}

/// Where a list holds a name once, taking it out filters it out.
pub proof fn lemma_remove_is_filter(list: Seq<Seq<char>>, i: int)
    requires
        list.no_duplicates(),
        0 <= i < list.len(),
    ensures
        set_remove(list, list[i]) == list.remove(i),
        list.remove(i).no_duplicates(),
    decreases list.len(),
{
    reveal(Seq::filter);
    let name = list[i];
    let rest = list.drop_last();
    assert forall|a: int, b: int|
        0 <= a < b < list.len() - 1 implies list.remove(i)[a] != list.remove(i)[b] by {
        let old_a = if a < i {
            a
        } else {
            a + 1
        };
        let old_b = if b < i {
            b
        } else {
            b + 1
        };
        assert(list.remove(i)[a] == list[old_a]);
        assert(list.remove(i)[b] == list[old_b]);
    }
    if i == list.len() - 1 {
        assert(!rest.contains(name)) by {
            if rest.contains(name) {
                let k = choose|k: int| 0 <= k < rest.len() && rest[k] == name;
                assert(list[k] == name);
            }
        }
        lemma_filter_absent(rest, name);
        assert(list.remove(i) =~= rest);
    } else {
        assert(rest[i] == name);
        assert(list.last() != name);
        lemma_remove_is_filter(rest, i);
        assert(list.remove(i) =~= rest.remove(i).push(list.last()));
    }
}

/// Filtering out a name that a list does not hold changes nothing.
proof fn lemma_filter_absent(list: Seq<Seq<char>>, name: Seq<char>)
    requires
        !list.contains(name),
    ensures
        set_remove(list, name) == list,
    decreases list.len(),
{
    reveal(Seq::filter);
    if list.len() > 0 {
        let rest = list.drop_last();
        assert(!rest.contains(name)) by {
            if rest.contains(name) {
                let k = choose|k: int| 0 <= k < rest.len() && rest[k] == name;
                assert(list[k] == name);
            }
        }
        lemma_filter_absent(rest, name);
        assert(list.contains(list.last()));
        assert(rest.push(list.last()) =~= list);
    } else {
        assert(set_remove(list, name) =~= list);
    }
}

/// The sorted list of the names of a list holds each of them, and no other, once,
/// and each sorts before those behind it.
pub proof fn sorted_sets_hold_each_name_once(list: Seq<Seq<char>>, name: Seq<char>)
    ensures
        sorted_set(list).contains(name) <==> list.contains(name),
        sorted_set(list).no_duplicates(),
        forall|a: int, b: int|
            0 <= a < b < sorted_set(list).len() ==> text::text_before(
                #[trigger] sorted_set(list)[a],
                #[trigger] sorted_set(list)[b],
            ),
{
    sorted_set_exists(list);
    lemma_sorted_distinct(sorted_set(list), list);
}

/// A name that is put into a set is in it, at the end where it is new; one that
/// is taken out is not. The other names stay, and so does their order.
pub proof fn sets_change_by_one_name(set: Seq<Seq<char>>, name: Seq<char>, other: Seq<char>)
    requires
        set.no_duplicates(),
    ensures
        set_insert(set, name).contains(name),
        !set_remove(set, name).contains(name),
        other != name ==> set_insert(set, name).contains(other) == set.contains(other),
        other != name ==> set_remove(set, name).contains(other) == set.contains(other),
        set.contains(name) ==> set_insert(set, name) == set,
        !set.contains(name) ==> set_insert(set, name) == set.push(name) && set_remove(set, name)
            == set,
        forall|i: int|
            0 <= i < set.len() && #[trigger] set[i] == name ==> set_remove(set, name)
                == set.remove(i),
{
    lemma_set_remove(set, name, name);
    lemma_set_remove(set, name, other);
    let after = set.push(name);
    assert(after[set.len() as int] == name);
    if other != name {
        if set.contains(other) {
            let k = choose|k: int| 0 <= k < set.len() && set[k] == other;
            assert(after[k] == other);
        }
        if after.contains(other) {
            let k = choose|k: int| 0 <= k < after.len() && after[k] == other;
            assert(set[k] == other);
        }
    }
    if !set.contains(name) {
        lemma_filter_absent(set, name);
    }
    assert forall|i: int| 0 <= i < set.len() && #[trigger] set[i] == name implies set_remove(
        set,
        name,
    ) == set.remove(i) by {
        lemma_remove_is_filter(set, i);
    }
}

}
