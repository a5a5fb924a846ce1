//! Text as sequences of characters: searching, splitting, trimming and
//! ordering, in the terms that the rest of the library speaks in.
use vstd::prelude::*;
use vstd::string::*;

verus! {

// --- Characters and plain strings ---

/// The characters of each string of a list.
pub open spec fn texts(list: Seq<String>) -> Seq<Seq<char>> {
    list.map_values(|s: String| s@)
}

/// [`String::push`] appends one character at the end.
pub assume_specification[ String::push ](s: &mut String, c: char)
    ensures
        final(s)@ == old(s)@.push(c),
;

/// [`String::pop`] takes the last character off and returns it, or returns
/// `None` and changes nothing when there is no character.
pub assume_specification[ String::pop ](s: &mut String) -> (r: Option<char>)
    ensures
        old(s)@.len() == 0 ==> r is None && final(s)@ == old(s)@,
        old(s)@.len() > 0 ==> r == Some(old(s)@.last()) && final(s)@ == old(s)@.drop_last(),
;

/// The characters of `s`, in order.
pub fn char_list(s: &str) -> (r: Vec<char>)
    ensures
        r@ == s@,
{
    let mut out: Vec<char> = Vec::new();
    for c in it: s.chars()
        invariant
            out@ == it.seq().take(it.index() as int),
            it.seq() == s@,
    {
        out.push(c);
    }
    out
}

/// Whether two strings hold the same characters.
pub fn same_text(a: &str, b: &str) -> (r: bool)
    ensures
        r == (a@ == b@),
{
    let x = char_list(a);
    let y = char_list(b);
    if x.len() != y.len() {
        return false;
    }
    let mut i: usize = 0;
    while i < x.len()
        invariant
            i <= x.len(),
            x.len() == y.len(),
            x@ == a@,
            y@ == b@,
            forall|j: int| 0 <= j < i ==> x@[j] == y@[j],
        decreases x.len() - i,
    {
        if x[i] != y[i] {
            assert(a@[i as int] != b@[i as int]);
            return false;
        }
        i += 1;
    }
    assert(a@ =~= b@);
    true
}

// --- Splitting at a character ---

/// Where `c` first occurs in `s`, or the length of `s` where it does not occur.
pub open spec fn find(s: Seq<char>, c: char) -> int
    decreases s.len(),
{
    if s.len() == 0 || s[0] == c {
        0
    } else {
        1 + find(s.drop_first(), c)
    }
}

/// `s` split at the first `c`, which belongs to neither part.
pub open spec fn split_once(s: Seq<char>, c: char) -> Option<(Seq<char>, Seq<char>)> {
    if find(s, c) < s.len() {
        Some((s.take(find(s, c)), s.skip(find(s, c) + 1)))
    } else {
        None
    }
}

/// The index that holds `c` with no `c` before it is the one that [`find`] names.
pub proof fn lemma_find(s: Seq<char>, c: char, i: int)
    requires
        0 <= i <= s.len(),
        i < s.len() ==> s[i] == c,
        forall|j: int| 0 <= j < i ==> s[j] != c,
    ensures
        find(s, c) == i,
    decreases s.len(),
{
    if i > 0 {
        assert forall|j: int| 0 <= j < i - 1 implies s.drop_first()[j] != c by {
            assert(s.drop_first()[j] == s[j + 1]);
        }
        lemma_find(s.drop_first(), c, i - 1);
    }
}

/// What [`find`] names is within the sequence; nothing before it is `c`.
pub proof fn lemma_find_bounds(s: Seq<char>, c: char)
    ensures
        0 <= find(s, c) <= s.len(),
        find(s, c) < s.len() ==> s[find(s, c)] == c,
        forall|j: int| 0 <= j < find(s, c) ==> s[j] != c,
    decreases s.len(),
{
    if s.len() > 0 && s[0] != c {
        lemma_find_bounds(s.drop_first(), c);
        assert forall|j: int| 0 <= j < find(s, c) implies s[j] != c by {
            if j > 0 {
                assert(s.drop_first()[j - 1] == s[j]);
            }
        }
    }
}

/// The index of the first `c` at or after `from`, or the length of the list.
pub fn find_from(list: &Vec<char>, c: char, from: usize) -> (r: usize)
    requires
        from <= list.len(),
    ensures
        r == from + find(list@.skip(from as int), c),
        from <= r <= list.len(),
{
    let mut i: usize = from;
    while i < list.len() && list[i] != c
        invariant
            from <= i <= list.len(),
            forall|j: int| from <= j < i ==> list@[j] != c,
        decreases list.len() - i,
    {
        i += 1;
    }
    proof {
        lemma_find(list@.skip(from as int), c, i - from);
    }
    i
}

/// The characters from `from` up to but not including `to`.
pub fn part(list: &Vec<char>, from: usize, to: usize) -> (r: Vec<char>)
    requires
        from <= to <= list.len(),
    ensures
        r@ == list@.subrange(from as int, to as int),
{
    let mut out: Vec<char> = Vec::new();
    let mut i: usize = from;
    while i < to
        invariant
            from <= i <= to <= list.len(),
            out@ == list@.subrange(from as int, i as int),
        decreases to - i,
    {
        out.push(list[i]);
        i += 1;
    }
    out
}

/// The string of a list of characters.
pub fn string_of(list: &Vec<char>) -> (r: String)
    ensures
        r@ == list@,
{
    let mut out = String::new();
    let mut i: usize = 0;
    while i < list.len()
        invariant
            i <= list.len(),
            out@ == list@.take(i as int),
        decreases list.len() - i,
    {
        out.push(list[i]);
        i += 1;
    }
    assert(list@.take(i as int) =~= list@);
    out
}

/// The list split at the first `c`, which belongs to neither part.
pub fn split_list(list: &Vec<char>, c: char) -> (r: Option<(Vec<char>, Vec<char>)>)
    ensures
        match r {
            Some((head, tail)) => split_once(list@, c) == Some((head@, tail@)),
            None => split_once(list@, c) is None,
        },
{
    let at = find_from(list, c, 0);
    assert(list@.skip(0) =~= list@);
    if at < list.len() {
        let head = part(list, 0, at);
        let tail = part(list, at + 1, list.len());
        assert(head@ =~= list@.take(at as int));
        assert(tail@ =~= list@.skip(at + 1));
        Some((head, tail))
    } else {
        None
    }
}

// --- Stripping characters off the ends ---

/// `s` without the characters at its start that are in `set`.
pub open spec fn strip_start(s: Seq<char>, set: spec_fn(char) -> bool) -> Seq<char>
    decreases s.len(),
{
    if s.len() > 0 && set(s[0]) {
        strip_start(s.drop_first(), set)
    } else {
        s
    }
}

/// `s` without the characters at its end that are in `set`.
pub open spec fn strip_end(s: Seq<char>, set: spec_fn(char) -> bool) -> Seq<char>
    decreases s.len(),
{
    if s.len() > 0 && set(s.last()) {
        strip_end(s.drop_last(), set)
    } else {
        s
    }
}

/// The characters with Unicode's `White_Space` property.
pub open spec fn white_space(c: char) -> bool {
    ||| '\u{9}' <= c <= '\u{d}'
    ||| c == ' '
    ||| c == '\u{85}'
    ||| c == '\u{a0}'
    ||| c == '\u{1680}'
    ||| '\u{2000}' <= c <= '\u{200a}'
    ||| c == '\u{2028}'
    ||| c == '\u{2029}'
    ||| c == '\u{202f}'
    ||| c == '\u{205f}'
    ||| c == '\u{3000}'
}

/// `s` without the white space at both of its ends.
pub open spec fn trimmed(s: Seq<char>) -> Seq<char> {
    strip_end(strip_start(s, |c: char| white_space(c)), |c: char| white_space(c))
}

/// Whether a character is white space or a slash.
pub open spec fn blank_or_slash(c: char) -> bool {
    white_space(c) || c == '/'
}

/// `s` without the white space and the slashes at both of its ends, however
/// they are mixed there.
pub open spec fn stripped(s: Seq<char>) -> Seq<char> {
    strip_end(strip_start(s, |c: char| blank_or_slash(c)), |c: char| blank_or_slash(c))
}

/// [`str::trim`] removes leading and trailing white space, which is Unicode's
/// `White_Space` property.
pub assume_specification[ str::trim ](s: &str) -> (r: &str)
    ensures
        r@ == trimmed(s@),
;

/// Whether a character is white space or a slash.
fn is_blank_or_slash(c: char) -> (r: bool)
    ensures
        r == blank_or_slash(c),
{
    c == '/' || c == ' ' || ('\u{9}' <= c && c <= '\u{d}') || c == '\u{85}' || c == '\u{a0}' || c
        == '\u{1680}' || ('\u{2000}' <= c && c <= '\u{200a}') || c == '\u{2028}' || c == '\u{2029}'
        || c == '\u{202f}' || c == '\u{205f}' || c == '\u{3000}'
}

/// `s` without the white space and the slashes at both of its ends.
pub fn strip_ends(s: &str) -> (r: &str)
    ensures
        r@ == stripped(s@),
{
    let list = char_list(s);
    let ghost set = |c: char| blank_or_slash(c);
    let mut from: usize = 0;
    assert(s@.skip(0) =~= s@);
    while from < list.len() && is_blank_or_slash(list[from])
        invariant
            from <= list.len(),
            list@ == s@,
            set == (|c: char| blank_or_slash(c)),
            strip_start(s@, set) == strip_start(s@.skip(from as int), set),
        decreases list.len() - from,
    {
        assert(s@.skip(from as int).drop_first() =~= s@.skip(from + 1));
        from += 1;
    }
    assert(strip_start(s@, set) == s@.skip(from as int));
    let mut to: usize = list.len();
    assert(s@.subrange(from as int, to as int) =~= s@.skip(from as int));
    while from < to && is_blank_or_slash(list[to - 1])
        invariant
            from <= to <= list.len(),
            list@ == s@,
            set == (|c: char| blank_or_slash(c)),
            strip_end(s@.skip(from as int), set) == strip_end(
                s@.subrange(from as int, to as int),
                set,
            ),
        decreases to,
    {
        assert(s@.subrange(from as int, to as int).drop_last() =~= s@.subrange(
            from as int,
            to - 1,
        ));
        to -= 1;
    }
    s.substring_char(from, to)
}

// --- Order ---

/// Whether `a` sorts before `b`: at the first place where they differ, the
/// smaller character decides; a text sorts before its own continuations.
pub open spec fn text_before(a: Seq<char>, b: Seq<char>) -> bool
    decreases a.len(),
{
    if b.len() == 0 {
        false
    } else if a.len() == 0 {
        true
    } else if a[0] != b[0] {
        a[0] < b[0]
    } else {
        text_before(a.drop_first(), b.drop_first())
    }
}

/// No text sorts before itself.
pub proof fn lemma_text_before_irreflexive(a: Seq<char>)
    ensures
        !text_before(a, a),
    decreases a.len(),
{
    if a.len() > 0 {
        lemma_text_before_irreflexive(a.drop_first());
    }
}

/// Of two different texts exactly one sorts before the other.
pub proof fn lemma_text_before_total(a: Seq<char>, b: Seq<char>)
    ensures
        a != b ==> text_before(a, b) != text_before(b, a),
    decreases a.len(),
{
    if a.len() == 0 {
        if b.len() == 0 {
            assert(a =~= b);
        }
    } else if b.len() > 0 && a[0] == b[0] {
        lemma_text_before_total(a.drop_first(), b.drop_first());
        if a.drop_first() == b.drop_first() {
            assert(a =~= seq![a[0]] + a.drop_first());
            assert(b =~= seq![b[0]] + b.drop_first());
        }
    }
}

/// Sorting before is transitive.
pub proof fn lemma_text_before_transitive(a: Seq<char>, b: Seq<char>, c: Seq<char>)
    requires
        text_before(a, b),
        text_before(b, c),
    ensures
        text_before(a, c),
    decreases a.len(),
{
    if a.len() > 0 && b.len() > 0 && c.len() > 0 && a[0] == b[0] && b[0] == c[0] {
        lemma_text_before_transitive(a.drop_first(), b.drop_first(), c.drop_first());
    }
}

/// Whether `a` sorts before `b`.
pub fn sorts_before(a: &str, b: &str) -> (r: bool)
    ensures
        r == text_before(a@, b@),
{
    let x = char_list(a);
    let y = char_list(b);
    let mut i: usize = 0;
    assert(a@.skip(0) =~= a@ && b@.skip(0) =~= b@);
    while i < x.len() && i < y.len() && x[i] == y[i]
        invariant
            i <= x.len(),
            i <= y.len(),
            x@ == a@,
            y@ == b@,
            text_before(a@, b@) == text_before(a@.skip(i as int), b@.skip(i as int)),
        decreases x.len() - i,
    {
        assert(a@.skip(i as int).drop_first() =~= a@.skip(i + 1));
        assert(b@.skip(i as int).drop_first() =~= b@.skip(i + 1));
        i += 1;
    }
    if i >= y.len() {
        false
    } else if i >= x.len() {
        true
    } else {
        x[i] < y[i]
    }
}

// --- Laws ---

/// A text is split at its first separator: put together again with one, the two
/// parts are the text, and the first holds none. A text that is not split holds
/// none at all.
pub proof fn splitting_is_at_the_first(s: Seq<char>, c: char)
    ensures
        match split_once(s, c) {
            Some((head, tail)) => s == head + seq![c] + tail && !head.contains(c),
            None => !s.contains(c),
        },
{
    lemma_find_bounds(s, c);
    let at = find(s, c);
    if at < s.len() {
        assert(s =~= s.take(at) + seq![c] + s.skip(at + 1));
    }
}

/// A text that is put together from two parts and a separator, which the first
/// part does not hold, is split into them again.
pub proof fn splitting_undoes_joining(head: Seq<char>, c: char, tail: Seq<char>)
    requires
        !head.contains(c),
    ensures
        split_once(head + seq![c] + tail, c) == Some((head, tail)),
{
    let whole = head + seq![c] + tail;
    let n = head.len() as int;
    assert forall|j: int| 0 <= j < n implies whole[j] != c by {
        assert(whole[j] == head[j]);
        assert(head.contains(head[j]));
    }
    lemma_find(whole, c, n);
    assert(whole.take(n) =~= head);
    assert(whole.skip(n + 1) =~= tail);
}

/// Two texts sort by the first place where they differ: there the smaller
/// character decides, and a text that ends there comes first.
pub proof fn the_first_difference_sorts(a: Seq<char>, b: Seq<char>, k: int)
    requires
        0 <= k <= a.len(),
        k <= b.len(),
        a.take(k) == b.take(k),
    ensures
        k == a.len() && k < b.len() ==> text_before(a, b) && !text_before(b, a),
        k < a.len() && k < b.len() && a[k] < b[k] ==> text_before(a, b) && !text_before(b, a),
    decreases k,
{
    if k > 0 {
        assert(a.take(k)[0] == b.take(k)[0]);
        let (x, y) = (a.drop_first(), b.drop_first());
        assert forall|j: int| 0 <= j < k - 1 implies x[j] == y[j] by {
            assert(a.take(k)[j + 1] == a[j + 1]);
            assert(b.take(k)[j + 1] == b[j + 1]);
        }
        assert(a[0] == a.take(k)[0] && b[0] == b.take(k)[0]);
        assert(x.take(k - 1) =~= y.take(k - 1));
        the_first_difference_sorts(x, y, k - 1);
    }
}

/// Taking characters off the start takes off a run of them, as long as it goes.
proof fn lemma_strip_start(s: Seq<char>, set: spec_fn(char) -> bool) -> (from: int)
    ensures
        0 <= from <= s.len(),
        strip_start(s, set) == s.skip(from),
        forall|i: int| 0 <= i < from ==> set(#[trigger] s[i]),
        from < s.len() ==> !set(s[from]),
    decreases s.len(),
{
    if s.len() > 0 && set(s[0]) {
        let rest = s.drop_first();
        let from = lemma_strip_start(rest, set);
        assert(rest.skip(from) =~= s.skip(from + 1));
        assert forall|i: int| 0 <= i < from + 1 implies set(#[trigger] s[i]) by {
            if i > 0 {
                assert(rest[i - 1] == s[i]);
            }
        }
        from + 1
    } else {
        assert(s.skip(0) =~= s);
        0
    }
}

/// Taking characters off the end takes off a run of them, as long as it goes.
proof fn lemma_strip_end(s: Seq<char>, set: spec_fn(char) -> bool) -> (to: int)
    ensures
        0 <= to <= s.len(),
        strip_end(s, set) == s.take(to),
        forall|i: int| to <= i < s.len() ==> set(#[trigger] s[i]),
        to > 0 ==> !set(s[to - 1]),
    decreases s.len(),
{
    if s.len() > 0 && set(s.last()) {
        let rest = s.drop_last();
        let to = lemma_strip_end(rest, set);
        assert(rest.take(to) =~= s.take(to));
        assert forall|i: int| to <= i < s.len() implies set(#[trigger] s[i]) by {
            if i < rest.len() {
                assert(rest[i] == s[i]);
            }
        }
        to
    } else {
        assert(s.take(s.len() as int) =~= s);
        s.len() as int
    }
}

/// White space and slashes round a text are taken off, whatever they are mixed
/// of, and nothing else is.
pub proof fn stripping_takes_the_ends_off(left: Seq<char>, core: Seq<char>, right: Seq<char>)
    requires
        forall|i: int| 0 <= i < left.len() ==> white_space(#[trigger] left[i]) || left[i] == '/',
        forall|i: int| 0 <= i < right.len() ==> white_space(#[trigger] right[i]) || right[i] == '/',
        core.len() > 0 ==> !white_space(core[0]) && core[0] != '/',
        core.len() > 0 ==> !white_space(core.last()) && core.last() != '/',
    ensures
        stripped(left + core + right) == core,
{
    let set = |c: char| blank_or_slash(c);
    let s = left + core + right;
    let from = lemma_strip_start(s, set);
    let rest = s.skip(from);
    let to = lemma_strip_end(rest, set);
    assert(stripped(s) == rest.take(to));
    let (l, c) = (left.len() as int, core.len() as int);
    if core.len() == 0 {
        assert forall|i: int| 0 <= i < s.len() implies set(#[trigger] s[i]) by {
            if i < l {
                assert(s[i] == left[i]);
            } else {
                assert(s[i] == right[i - l]);
            }
        }
        if from < s.len() {
            assert(set(s[from]));
        }
        assert(rest.take(to) =~= core);
    } else {
        assert(s[l] == core[0]);
        if from < l {
            assert(s[from] == left[from]);
        } else if from > l {
            assert(set(s[l]));
        }
        assert(s[l + c - 1] == core.last());
        assert(rest[c - 1] == s[l + c - 1]);
        if to > c {
            assert(rest[to - 1] == right[to - 1 - c]);
        } else if to < c {
            assert(set(rest[c - 1]));
        }
        assert(rest.take(to) =~= core);
    }
}

}
