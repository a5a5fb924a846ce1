//! Text files as lists of lines, and lines as lists of fields.
use vstd::prelude::*;
use crate::text;

verus! {

/// A line without the carriage return that a line feed follows.
pub open spec fn without_return(line: Seq<char>) -> Seq<char> {
    if line.len() > 0 && line.last() == '\r' {
        line.drop_last()
    } else {
        line
    }
}

/// The lines of a text. A line ends with a line feed, which a carriage return
/// may precede, and neither belongs to it; the last line may lack its ending.
pub open spec fn lines(s: Seq<char>) -> Seq<Seq<char>>
    decreases s.len(),
{
    if s.len() == 0 {
        Seq::empty()
    } else {
        let end = text::find(s, '\n');
        if 0 <= end < s.len() {
            seq![without_return(s.take(end))] + lines(s.skip(end + 1))
        } else {
            seq![s]
        }
    }
}

/// The characters of each line of a list.
pub open spec fn line_texts(list: Seq<Vec<char>>) -> Seq<Seq<char>> {
    list.map_values(|line: Vec<char>| line@)
}

/// The lines of a text.
pub fn split_lines(list: &Vec<char>) -> (r: Vec<Vec<char>>)
    ensures
        line_texts(r@) == lines(list@),
{
    let mut out: Vec<Vec<char>> = Vec::new();
    let mut at: usize = 0;
    assert(list@.skip(0) =~= list@);
    assert(line_texts(out@) + lines(list@) =~= lines(list@));
    while at < list.len()
        invariant
            at <= list.len(),
            line_texts(out@) + lines(list@.skip(at as int)) == lines(list@),
        decreases list.len() - at,
    {
        let ghost rest = list@.skip(at as int);
        let ghost done = line_texts(out@);
        let end = text::find_from(list, '\n', at);
        if end < list.len() {
            let stop: usize = if end > at && list[end - 1] == '\r' {
                end - 1
            } else {
                end
            };
            let line = text::part(list, at, stop);
            proof {
                assert(rest.take(end - at) =~= list@.subrange(at as int, end as int));
                assert(line@ =~= without_return(rest.take(end - at)));
                assert(rest.skip(end - at + 1) =~= list@.skip(end + 1));
                assert(lines(rest) =~= seq![line@] + lines(list@.skip(end + 1)));
            }
            out.push(line);
            assert(line_texts(out@) =~= done.push(line@));
            assert(done.push(line@) + lines(list@.skip(end + 1)) =~= done + lines(rest));
            at = end + 1;
        } else {
            let line = text::part(list, at, list.len());
            proof {
                assert(line@ =~= rest);
                assert(lines(rest) =~= seq![rest]);
            }
            out.push(line);
            at = list.len();
            assert(line_texts(out@) =~= done.push(rest));
            assert(list@.skip(at as int) =~= Seq::<char>::empty());
            assert(done.push(rest) + lines(list@.skip(at as int)) =~= done + lines(rest));
        }
    }
    assert(list@.skip(at as int) =~= Seq::<char>::empty());
    assert(line_texts(out@) + Seq::<Seq<char>>::empty() =~= line_texts(out@));
    out
}

/// The three fields of a line: up to the first bar, up to the second, and the
/// rest; `None` where there are not two bars.
pub open spec fn three_fields(line: Seq<char>) -> Option<(Seq<char>, Seq<char>, Seq<char>)> {
    match text::split_once(line, '|') {
        Some((first, rest)) => match text::split_once(rest, '|') {
            Some((second, third)) => Some((first, second, third)),
            None => None,
        },
        None => None,
    }
}

/// The three fields of a line that bars separate.
pub fn split_three(line: &Vec<char>) -> (r: Option<(Vec<char>, Vec<char>, Vec<char>)>)
    ensures
        match r {
            Some((first, second, third)) => three_fields(line@) == Some(
                (first@, second@, third@),
            ),
            None => three_fields(line@) is None,
        },
{
    match text::split_list(line, '|') {
        Some((first, rest)) => match text::split_list(&rest, '|') {
            Some((second, third)) => Some((first, second, third)),
            None => None,
        },
        None => None,
    }
}

// --- Laws ---

/// A line ends at its line feed, and the lines behind it are those of the rest.
/// A carriage return before the line feed is part of the ending.
pub proof fn a_line_ends_at_its_line_feed(line: Seq<char>, rest: Seq<char>)
    requires
        !line.contains('\n'),
    ensures
        lines(line + seq!['\n'] + rest).len() == lines(rest).len() + 1,
        lines(line + seq!['\n'] + rest).skip(1) == lines(rest),
        line.len() == 0 || line.last() != '\r' ==> lines(line + seq!['\n'] + rest)[0] == line,
        line.len() > 0 && line.last() == '\r' ==> lines(line + seq!['\n'] + rest)[0].push('\r')
            == line,
{
    let whole = line + seq!['\n'] + rest;
    let n = line.len() as int;
    assert forall|j: int| 0 <= j < n implies whole[j] != '\n' by {
        assert(whole[j] == line[j]);
        assert(line.contains(line[j]));
    }
    text::lemma_find(whole, '\n', n);
    assert(whole.take(n) =~= line);
    assert(whole.skip(n + 1) =~= rest);
    let all = seq![without_return(line)] + lines(rest);
    assert(lines(whole) == all);
    assert(all.skip(1) =~= lines(rest));
    if line.len() > 0 && line.last() == '\r' {
        assert(line.drop_last().push('\r') =~= line);
    }
}

/// The last line may lack its line feed; a text without characters has no line.
pub proof fn the_last_line_may_be_open(line: Seq<char>)
    requires
        !line.contains('\n'),
    ensures
        line.len() > 0 ==> lines(line) == seq![line],
        line.len() == 0 ==> lines(line).len() == 0,
{
    assert forall|j: int| 0 <= j < line.len() implies line[j] != '\n' by {
        assert(line.contains(line[j]));
    }
    text::lemma_find(line, '\n', line.len() as int);
}

/// The fields of a line are what stands between its first two bars: the first
/// two hold none, and put together with bars the three are the line. A line
/// without fields does not hold two bars.
pub proof fn fields_stand_between_bars(line: Seq<char>)
    ensures
        match three_fields(line) {
            Some((first, second, third)) => {
                &&& line == first + seq!['|'] + second + seq!['|'] + third
                &&& !first.contains('|')
                &&& !second.contains('|')
            },
            None => forall|i: int, j: int|
                0 <= i < j < line.len() ==> !(#[trigger] line[i] == '|' && #[trigger] line[j]
                    == '|'),
        },
{
    text::splitting_is_at_the_first(line, '|');
    if let Some((first, rest)) = text::split_once(line, '|') {
        text::splitting_is_at_the_first(rest, '|');
        match text::split_once(rest, '|') {
            Some((second, third)) => {
                assert(first + seq!['|'] + (second + seq!['|'] + third) =~= first + seq!['|']
                    + second + seq!['|'] + third);
            },
            None => {
                assert forall|i: int, j: int| 0 <= i < j < line.len() implies !(#[trigger] line[i]
                    == '|' && #[trigger] line[j] == '|') by {
                    if line[i] == '|' && line[j] == '|' {
                        if i < first.len() {
                            assert(first.contains(first[i]));
                        }
                        assert(line[j] == rest[j - first.len() - 1]);
                        assert(rest.contains(rest[j - first.len() - 1]));
                    }
                }
            },
        }
    } else {
        assert forall|i: int, j: int| 0 <= i < j < line.len() implies !(#[trigger] line[i] == '|'
            && #[trigger] line[j] == '|') by {
            assert(line.contains(line[i]) || line[i] != '|');
        }
    }
}

}
