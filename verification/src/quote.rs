//! Quoting for the POSIX shell.
use vstd::prelude::*;
use vstd::string::*;

verus! {

/// One character within single quotes: itself, but a single quote as the end
/// of the quotes, an escaped quote, and the start of new ones.
pub open spec fn quoted_char(c: char) -> Seq<char> {
    if c == '\'' {
        "'\\''"@
    } else {
        seq![c]
    }
}

/// The characters of `s` within single quotes.
pub open spec fn quoted_body(s: Seq<char>) -> Seq<char>
    decreases s.len(),
{
    if s.len() == 0 {
        Seq::empty()
    } else {
        quoted_body(s.drop_last()) + quoted_char(s.last())
    }
}

/// `s` as one word of the shell.
pub open spec fn quoted(s: Seq<char>) -> Seq<char> {
    seq!['\''] + quoted_body(s) + seq!['\'']
}

/// `s` as one word of the shell, in single quotes.
pub fn sh_quote(s: &str) -> (r: String)
    ensures
        r@ == quoted(s@),
{
    let list = crate::text::char_list(s);
    let mut out = String::new();
    out.push('\'');
    let mut i: usize = 0;
    assert(out@ =~= seq!['\''] + quoted_body(s@.take(0)));
    while i < list.len()
        invariant
            i <= list.len(),
            list@ == s@,
            out@ == seq!['\''] + quoted_body(s@.take(i as int)),
        decreases list.len() - i,
    {
        let c = list[i];
        let ghost before = out@;
        proof {
            assert(s@.take(i + 1).drop_last() =~= s@.take(i as int));
            assert(s@.take(i + 1).last() == c);
        }
        if c == '\'' {
            out.append("'\\''");
        } else {
            out.push(c);
        }
        assert(out@ =~= before + quoted_char(c));
        assert(out@ =~= seq!['\''] + quoted_body(s@.take(i + 1)));
        i += 1;
    }
    assert(s@.take(i as int) =~= s@);
    out.push('\'');
    assert(out@ =~= quoted(s@));
    out
}

// --- What the shell reads ---

/// What the shell makes of a word that consists of single-quoted parts and
/// escaped characters, read from a place inside or outside quotes: within
/// quotes every character up to the next quote stands for itself, outside a
/// backslash makes the next character stand for itself. `None` where quotes
/// stay open or where the word holds anything else.
pub open spec fn word_value(w: Seq<char>, inside: bool) -> Option<Seq<char>>
    decreases w.len(),
{
    if w.len() == 0 {
        if inside {
            None
        } else {
            Some(Seq::empty())
        }
    } else if w[0] == '\'' {
        word_value(w.drop_first(), !inside)
    } else if inside {
        match word_value(w.drop_first(), true) {
            Some(rest) => Some(seq![w[0]] + rest),
            None => None,
        }
    } else if w[0] == '\\' && w.len() > 1 && w[1] != '\n' {
        match word_value(w.skip(2), false) {
            Some(rest) => Some(seq![w[1]] + rest),
            None => None,
        }
    } else {
        None
    }
}

/// Quoted characters stand for themselves, whatever follows within the quotes.
proof fn lemma_body_value(s: Seq<char>, tail: Seq<char>, value: Seq<char>)
    requires
        word_value(tail, true) == Some(value),
    ensures
        word_value(quoted_body(s) + tail, true) == Some(s + value),
    decreases s.len(),
{
    if s.len() == 0 {
        assert(quoted_body(s) + tail =~= tail);
        assert(s + value =~= value);
    } else {
        let c = s.last();
        let longer = quoted_char(c) + tail;
        assert(word_value(longer, true) == Some(seq![c] + value)) by {
            if c == '\'' {
                reveal_strlit("'\\''");
                let q = seq!['\'', '\\', '\'', '\''];
                assert(quoted_char(c) =~= q);
                let w1 = seq!['\\', '\'', '\''] + tail;
                let w2 = seq!['\''] + tail;
                assert(longer.drop_first() =~= w1);
                assert(w1.skip(2) =~= w2);
                assert(w2.drop_first() =~= tail);
                assert(word_value(w2, false) == word_value(tail, true));
                assert(word_value(w1, false) == Some(seq!['\''] + value));
            } else {
                assert(longer.drop_first() =~= tail);
            }
        }
        lemma_body_value(s.drop_last(), longer, seq![c] + value);
        assert(quoted_body(s) + tail =~= quoted_body(s.drop_last()) + longer);
        assert(s.drop_last() + (seq![c] + value) =~= s + value);
    }
}

/// The shell reads a quoted text as one word that stands for exactly that
/// text, whatever it holds.
pub proof fn quoting_is_exact(s: Seq<char>)
    ensures
        word_value(quoted(s), false) == Some(s),
{
    let end = seq!['\''];
    assert(end.drop_first() =~= Seq::empty());
    assert(word_value(end.drop_first(), false) == Some(Seq::<char>::empty()));
    assert(word_value(end, true) == Some(Seq::<char>::empty()));
    lemma_body_value(s, end, Seq::empty());
    assert(quoted(s).drop_first() =~= quoted_body(s) + end);
    assert(s + Seq::<char>::empty() =~= s);
}

/// Whether the shell reads `word` as one word that stands for `s`.
pub open spec fn stands_for(word: Seq<char>, s: Seq<char>) -> bool {
    word_value(word, false) == Some(s)
}

}
