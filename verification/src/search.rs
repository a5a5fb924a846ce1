//! Fuzzy search: a needle matches where its characters occur in the haystack
//! in the same order, case aside.
use vstd::prelude::*;
use crate::text;

verus! {

/// What [`str::to_lowercase`] makes of a text with characters beyond ASCII.
pub uninterp spec fn unicode_lowercase(s: Seq<char>) -> Seq<char>;

/// The lower case letter of an upper case one of ASCII; any other character
/// stays itself.
pub open spec fn ascii_lower(c: char) -> char {
    if 'A' <= c <= 'Z' {
        (c as int + 32) as char
    } else {
        c
    }
}

/// Whether `s` holds ASCII characters only.
pub open spec fn is_ascii(s: Seq<char>) -> bool {
    forall|i: int| 0 <= i < s.len() ==> (#[trigger] s[i] as int) < 128
}

/// A text in lower case.
pub open spec fn lowercase(s: Seq<char>) -> Seq<char> {
    if is_ascii(s) {
        s.map_values(|c: char| ascii_lower(c))
    } else {
        unicode_lowercase(s)
    }
}

/// [`str::to_lowercase`] is a function of the text. Of ASCII text it lowers
/// each of the letters `A` to `Z` and keeps the rest; how it treats other
/// characters is Unicode's matter and not stated here.
#[verifier::external_body]
fn to_lower(s: &str) -> (r: String)
    ensures
        is_ascii(s@) ==> r@ == s@.map_values(|c: char| ascii_lower(c)),
        !is_ascii(s@) ==> r@ == unicode_lowercase(s@),
{
    s.to_lowercase()
}

/// Whether `places` lists, in increasing order, where the characters of
/// `need` stand in `hay`.
pub open spec fn embeds(need: Seq<char>, hay: Seq<char>, places: Seq<int>) -> bool {
    &&& places.len() == need.len()
    &&& forall|i: int|
        0 <= i < places.len() ==> 0 <= #[trigger] places[i] < hay.len() && hay[places[i]]
            == need[i]
    &&& forall|i: int, j: int| 0 <= i < j < places.len() ==> places[i] < places[j]
}

/// Whether the characters of `need` occur in `hay` in the same order.
pub open spec fn is_subsequence(need: Seq<char>, hay: Seq<char>) -> bool {
    exists|places: Seq<int>| embeds(need, hay, places)
}

/// Whether `needle` matches `haystack`: case aside, its characters occur
/// there in the same order. Every haystack matches the empty needle.
pub open spec fn fuzzy_match(haystack: Seq<char>, needle: Seq<char>) -> bool {
    needle.len() == 0 || is_subsequence(lowercase(needle), lowercase(haystack))
}

/// How an embedding into `hay` and one more character comes about.
proof fn lemma_subsequence_step(need: Seq<char>, c: char, hay: Seq<char>, d: char)
    ensures
        is_subsequence(need.push(c), hay.push(d)) == (is_subsequence(need.push(c), hay) || (c == d
            && is_subsequence(need, hay))),
{
    let longer = hay.push(d);
    if is_subsequence(need.push(c), hay) {
        let places = choose|places: Seq<int>| embeds(need.push(c), hay, places);
        assert(embeds(need.push(c), longer, places));
    } else if c == d && is_subsequence(need, hay) {
        let places = choose|places: Seq<int>| embeds(need, hay, places);
        assert(embeds(need.push(c), longer, places.push(hay.len() as int)));
    }
    if is_subsequence(need.push(c), longer) {
        let places = choose|places: Seq<int>| embeds(need.push(c), longer, places);
        assert(longer[places[need.len() as int]] == c);
        if places[need.len() as int] == hay.len() {
            assert forall|i: int| 0 <= i < need.len() implies 0 <= #[trigger] places.drop_last()[i]
                < hay.len() && hay[places.drop_last()[i]] == need[i] by {
                assert(places[i] < places[need.len() as int]);
                assert(longer[places[i]] == need.push(c)[i]);
            }
            assert(embeds(need, hay, places.drop_last()));
        } else {
            assert forall|i: int| 0 <= i < places.len() implies 0 <= #[trigger] places[i] < hay.len()
                && hay[places[i]] == need.push(c)[i] by {
                if i < need.len() {
                    assert(places[i] < places[need.len() as int]);
                }
                assert(longer[places[i]] == need.push(c)[i]);
            }
            assert(embeds(need.push(c), hay, places));
        }
    }
}

/// A shorter needle matches wherever a longer one does.
pub proof fn lemma_subsequence_shorter(need: Seq<char>, k: int, hay: Seq<char>)
    requires
        0 <= k <= need.len(),
        is_subsequence(need, hay),
    ensures
        is_subsequence(need.take(k), hay),
{
    let places = choose|places: Seq<int>| embeds(need, hay, places);
    assert(embeds(need.take(k), hay, places.take(k)));
}

/// Whether the characters of `need` occur in `hay` in the same order.
pub fn subsequence(hay: &str, need: &str) -> (r: bool)
    ensures
        r == is_subsequence(need@, hay@),
{
    let hay_list = text::char_list(hay);
    let need_list = text::char_list(need);
    let mut found: usize = 0;
    let mut i: usize = 0;
    proof {
        assert(embeds(need@.take(0), hay@.take(0), Seq::empty()));
        if need@.len() > 0 {
            assert forall|places: Seq<int>| !embeds(need@.take(1), hay@.take(0), places) by {
                if embeds(need@.take(1), hay@.take(0), places) {
                    assert(places.len() == 1);
                    assert(0 <= places[0] < hay@.take(0).len());
                }
            }
        }
    }
    while i < hay_list.len()
        invariant
            i <= hay_list.len(),
            hay_list@ == hay@,
            need_list@ == need@,
            found <= need_list.len(),
            is_subsequence(need@.take(found as int), hay@.take(i as int)),
            found < need_list.len() ==> !is_subsequence(
                need@.take(found + 1),
                hay@.take(i as int),
            ),
        decreases hay_list.len() - i,
    {
        let ghost before = hay@.take(i as int);
        proof {
            assert(hay@.take(i + 1) =~= before.push(hay@[i as int]));
            if found > 0 {
                let f = found as int;
                assert(need@.take(f) =~= need@.take(f - 1).push(need@[f - 1]));
                lemma_subsequence_step(need@.take(f - 1), need@[f - 1], before, hay@[i as int]);
            } else {
                assert(embeds(need@.take(0), hay@.take(i + 1), Seq::empty()));
            }
            if found < need_list.len() {
                let f = found as int;
                assert(need@.take(f + 1) =~= need@.take(f).push(need@[f]));
                lemma_subsequence_step(need@.take(f), need@[f], before, hay@[i as int]);
                if f + 1 < need_list.len() {
                    assert(need@.take(f + 2) =~= need@.take(f + 1).push(need@[f + 1]));
                    lemma_subsequence_step(
                        need@.take(f + 1),
                        need@[f + 1],
                        before,
                        hay@[i as int],
                    );
                    if is_subsequence(need@.take(f + 2), before) {
                        lemma_subsequence_shorter(need@.take(f + 2), f + 1, before);
                        assert(need@.take(f + 2).take(f + 1) =~= need@.take(f + 1));
                    }
                }
            }
        }
        if found < need_list.len() && hay_list[i] == need_list[found] {
            found += 1;
        }
        i += 1;
    }
    proof {
        assert(hay@.take(i as int) =~= hay@);
        if found < need_list.len() {
            if is_subsequence(need@, hay@) {
                lemma_subsequence_shorter(need@, found + 1, hay@);
            }
        } else {
            assert(need@.take(found as int) =~= need@);
        }
    }
    found == need_list.len()
}

/// Whether `needle` matches `haystack`, case aside.
pub fn fuzzy(haystack: &str, needle: &str) -> (r: bool)
    ensures
        r == fuzzy_match(haystack@, needle@),
{
    if needle.is_empty() {
        return true;
    }
    let hay = to_lower(haystack);
    let need = to_lower(needle);
    subsequence(hay.as_str(), need.as_str())
}

// --- Laws ---

/// Every text matches the empty needle, and itself.
pub proof fn texts_match_themselves(s: Seq<char>)
    ensures
        fuzzy_match(s, Seq::empty()),
        fuzzy_match(s, s),
{
    let lower = lowercase(s);
    assert(embeds(lower, lower, Seq::new(lower.len(), |i: int| i)));
}

/// What is typed on can only narrow the search: what matches the longer needle
/// matches the shorter one. The needle is ASCII text; beyond it, what follows a
/// letter may change its lower case.
pub proof fn typing_narrows(haystack: Seq<char>, needle: Seq<char>, c: char)
    requires
        is_ascii(needle.push(c)),
        fuzzy_match(haystack, needle.push(c)),
    ensures
        fuzzy_match(haystack, needle),
{
    let longer = needle.push(c);
    assert forall|i: int| 0 <= i < needle.len() implies (#[trigger] needle[i] as int) < 128 by {
        assert(longer[i] == needle[i]);
    }
    lemma_subsequence_shorter(lowercase(longer), needle.len() as int, lowercase(haystack));
    assert(lowercase(longer).take(needle.len() as int) =~= lowercase(needle));
}

/// Case does not matter, neither in the text nor in the needle, where they are
/// ASCII text.
pub proof fn case_does_not_matter(haystack: Seq<char>, needle: Seq<char>)
    requires
        is_ascii(haystack),
        is_ascii(needle),
    ensures
        fuzzy_match(haystack, needle) == fuzzy_match(lowercase(haystack), needle),
        fuzzy_match(haystack, needle) == fuzzy_match(haystack, lowercase(needle)),
{
    lemma_lowercase_twice(haystack);
    lemma_lowercase_twice(needle);
}

/// Lowering ASCII text again changes nothing.
proof fn lemma_lowercase_twice(s: Seq<char>)
    requires
        is_ascii(s),
    ensures
        lowercase(lowercase(s)) == lowercase(s),
        lowercase(s).len() == s.len(),
{
    let lower = lowercase(s);
    assert forall|i: int| 0 <= i < lower.len() implies (#[trigger] lower[i] as int) < 128
        && ascii_lower(lower[i]) == lower[i] by {
        assert((s[i] as int) < 128);
    }
    assert(lowercase(lower) =~= lower);
}

/// Any part of a text matches it.
pub proof fn parts_match(s: Seq<char>, from: int, to: int)
    requires
        is_ascii(s),
        0 <= from <= to <= s.len(),
    ensures
        fuzzy_match(s, s.subrange(from, to)),
{
    let part = s.subrange(from, to);
    assert forall|i: int| 0 <= i < part.len() implies (#[trigger] part[i] as int) < 128 by {
        assert(part[i] == s[from + i]);
    }
    let places = Seq::new(part.len(), |i: int| from + i);
    assert(embeds(lowercase(part), lowercase(s), places));
}

/// Whether two characters are the same letter, in whichever case, or the same
/// character.
pub open spec fn same_letter(a: char, b: char) -> bool {
    ||| a == b
    ||| 'a' <= a <= 'z' && b as int == a as int - 32
    ||| 'a' <= b <= 'z' && a as int == b as int - 32
}

/// Whether `places` lists, from left to right, places of the text that hold the
/// letters of the needle.
pub open spec fn holds_letters(s: Seq<char>, needle: Seq<char>, places: Seq<int>) -> bool {
    &&& places.len() == needle.len()
    &&& forall|i: int|
        0 <= i < places.len() ==> 0 <= #[trigger] places[i] < s.len() && same_letter(
            s[places[i]],
            needle[i],
        )
    &&& forall|i: int, j: int| 0 <= i < j < places.len() ==> places[i] < places[j]
}

/// A search finds exactly the texts that hold the letters of the needle from
/// left to right, with anything between them. This is about ASCII text.
pub proof fn searching_finds_the_letters_in_order(s: Seq<char>, needle: Seq<char>)
    requires
        is_ascii(s),
        is_ascii(needle),
    ensures
        fuzzy_match(s, needle) <==> exists|places: Seq<int>| holds_letters(s, needle, places),
{
    let (low, small) = (lowercase(s), lowercase(needle));
    assert forall|a: char, b: char| (a as int) < 128 && (b as int) < 128 implies (ascii_lower(a)
        == ascii_lower(b)) == #[trigger] same_letter(a, b) by {}
    if needle.len() == 0 {
        assert(holds_letters(s, needle, Seq::empty()));
    } else {
        if is_subsequence(small, low) {
            let places = choose|places: Seq<int>| embeds(small, low, places);
            assert forall|i: int| 0 <= i < places.len() implies 0 <= #[trigger] places[i] < s.len()
                && same_letter(s[places[i]], needle[i]) by {
                assert(low[places[i]] == small[i]);
                assert((s[places[i]] as int) < 128 && (needle[i] as int) < 128);
            }
            assert(holds_letters(s, needle, places));
        }
        if exists|places: Seq<int>| holds_letters(s, needle, places) {
            let places = choose|places: Seq<int>| holds_letters(s, needle, places);
            assert forall|i: int| 0 <= i < places.len() implies 0 <= #[trigger] places[i]
                < low.len() && low[places[i]] == small[i] by {
                assert(same_letter(s[places[i]], needle[i]));
                assert((s[places[i]] as int) < 128 && (needle[i] as int) < 128);
            }
            assert(embeds(small, low, places));
        }
    }
}

/// A search goes by the texts in lower case: the needle is found where its
/// characters occur in the text from left to right. Beyond ASCII the lower case
/// is that of Unicode; without a needle everything is found.
pub proof fn searching_goes_by_lower_case(s: Seq<char>, needle: Seq<char>)
    ensures
        fuzzy_match(s, needle) <==> needle.len() == 0 || exists|places: Seq<int>|
            embeds(lowercase(needle), lowercase(s), places),
        !is_ascii(s) ==> lowercase(s) == unicode_lowercase(s),
        is_ascii(s) ==> lowercase(s).len() == s.len() && forall|i: int|
            0 <= i < s.len() ==> #[trigger] lowercase(s)[i] == if 'A' <= s[i] <= 'Z' {
                (s[i] as int + 32) as char
            } else {
                s[i]
            },
{
}

}
