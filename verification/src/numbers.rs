//! Decimal numbers as text: printing a count, reading a signed integer.
use vstd::prelude::*;

verus! {

// --- Printing ---

/// The character of a digit.
pub open spec fn digit_char(d: int) -> char {
    (d + 48) as char
}

/// `n` in decimal, without leading zeros.
pub open spec fn decimal(n: nat) -> Seq<char>
    decreases n,
{
    if n < 10 {
        seq![digit_char(n as int)]
    } else {
        decimal(n / 10).push(digit_char((n % 10) as int))
    }
}

/// The character of a digit.
fn digit(d: u8) -> (r: char)
    requires
        d < 10,
    ensures
        r == digit_char(d as int),
{
    (d + 48) as char
}

/// `n` in decimal, without leading zeros.
pub fn count_text(n: usize) -> (r: String)
    ensures
        r@ == decimal(n as nat),
    decreases n,
{
    if n < 10 {
        let mut s = String::new();
        s.push(digit(n as u8));
        assert(s@ =~= decimal(n as nat));
        s
    } else {
        let mut s = count_text(n / 10);
        s.push(digit((n % 10) as u8));
        s
    }
}

/// A decimal number of a machine word has between one and twenty digits.
pub proof fn lemma_decimal_length(n: nat, digits: nat, limit: nat)
    requires
        n < limit,
        limit == vstd::arithmetic::power::pow(10, digits),
        digits > 0,
    ensures
        1 <= decimal(n).len() <= digits,
    decreases digits,
{
    reveal(vstd::arithmetic::power::pow);
    if n >= 10 {
        if digits == 1 {
            assert(limit == 10) by {
                reveal_with_fuel(vstd::arithmetic::power::pow, 2);
            }
        } else {
            let lower = vstd::arithmetic::power::pow(10, (digits - 1) as nat);
            assert(limit == 10 * lower);
            lemma_decimal_length(n / 10, (digits - 1) as nat, lower as nat);
        }
    }
}

// --- Reading ---

/// Whether `c` is one of the digits `0` to `9`.
pub open spec fn is_digit(c: char) -> bool {
    '0' <= c <= '9'
}

/// The value of a digit.
pub open spec fn digit_value(c: char) -> int {
    c as int - 48
}

/// Whether `s` holds at least one character and digits only.
pub open spec fn all_digits(s: Seq<char>) -> bool {
    s.len() > 0 && forall|i: int| 0 <= i < s.len() ==> is_digit(#[trigger] s[i])
}

/// The number that the digits of `s` write in decimal.
pub open spec fn digits_value(s: Seq<char>) -> int
    decreases s.len(),
{
    if s.len() == 0 {
        0
    } else {
        digits_value(s.drop_last()) * 10 + digit_value(s.last())
    }
}

/// The integer that `s` writes: digits, after one sign or none.
pub open spec fn integer(s: Seq<char>) -> Option<int> {
    if all_digits(s) {
        Some(digits_value(s))
    } else if s.len() > 0 && s[0] == '+' && all_digits(s.skip(1)) {
        Some(digits_value(s.skip(1)))
    } else if s.len() > 0 && s[0] == '-' && all_digits(s.skip(1)) {
        Some(-digits_value(s.skip(1)))
    } else {
        None
    }
}

/// The integer that `s` writes, where 64 bits hold it.
pub open spec fn signed_64(s: Seq<char>) -> Option<i64> {
    match integer(s) {
        Some(v) => if i64::MIN <= v <= i64::MAX {
            Some(v as i64)
        } else {
            None
        },
        None => None,
    }
}

/// More digits write no smaller number.
proof fn lemma_digits_grow(s: Seq<char>, k: int)
    requires
        0 <= k <= s.len(),
        forall|i: int| 0 <= i < s.len() ==> is_digit(#[trigger] s[i]),
    ensures
        0 <= digits_value(s.take(k)) <= digits_value(s),
    decreases s.len() - k, s.len(),
{
    if k == s.len() {
        assert(s.take(k) =~= s);
        if s.len() > 0 {
            lemma_digits_grow(s.drop_last(), s.len() - 1);
            assert(s.drop_last().take(s.len() - 1) =~= s.drop_last());
        }
    } else {
        lemma_digits_grow(s, k + 1);
        assert(s.take(k + 1).drop_last() =~= s.take(k));
        assert(is_digit(s[k]));
        lemma_digits_grow(s.take(k), k);
        assert(s.take(k).take(k) =~= s.take(k));
    }
}

/// The number that the digits from `from` on write, negated where `negative`
/// says so; `None` where a character is no digit, where there is none, or
/// where 64 bits do not hold the number.
fn read_digits(list: &Vec<char>, from: usize, negative: bool) -> (r: Option<i64>)
    requires
        from <= list.len(),
    ensures
        ({
            let s = list@.skip(from as int);
            let v = if negative {
                -digits_value(s)
            } else {
                digits_value(s)
            };
            if all_digits(s) && i64::MIN <= v <= i64::MAX {
                r == Some(v as i64)
            } else {
                r is None
            }
        }),
{
    let ghost s = list@.skip(from as int);
    if from == list.len() {
        return None;
    }
    let mut value: i128 = 0;
    let mut i: usize = from;
    while i < list.len()
        invariant
            from <= i <= list.len(),
            s == list@.skip(from as int),
            forall|j: int| 0 <= j < i - from ==> is_digit(#[trigger] s[j]),
            value == digits_value(s.take(i - from)),
            0 <= value <= 9223372036854775808,
        decreases list.len() - i,
    {
        let c = list[i];
        assert(c == s[i - from]);
        if !('0' <= c && c <= '9') {
            assert(!is_digit(s[i - from]));
            return None;
        }
        value = value * 10 + (c as u32 - 48) as i128;
        assert(s.take(i + 1 - from).drop_last() =~= s.take(i - from));
        i += 1;
        if value > 9223372036854775808 {
            proof {
                if all_digits(s) {
                    lemma_digits_grow(s, i - from);
                }
            }
            return None;
        }
    }
    assert(s.take(i - from) =~= s);
    if negative {
        Some((-value) as i64)
    } else if value <= 9223372036854775807 {
        Some(value as i64)
    } else {
        None
    }
}

/// The signed integer that the characters write, where 64 bits hold it.
pub fn read_signed(list: &Vec<char>) -> (r: Option<i64>)
    ensures
        r == signed_64(list@),
{
    assert(list@.skip(0) =~= list@);
    if list.len() > 0 && (list[0] == '+' || list[0] == '-') {
        assert(!is_digit(list@[0]));
        read_digits(list, 1, list[0] == '-')
    } else {
        read_digits(list, 0, false)
    }
}

// --- Laws ---

/// A number is read as it was printed. It is printed in digits only, without a
/// zero before others.
pub proof fn reading_undoes_printing(n: nat)
    ensures
        integer(decimal(n)) == Some(n as int),
        all_digits(decimal(n)),
        decimal(n).len() > 1 ==> decimal(n)[0] != '0',
        n <= i64::MAX ==> signed_64(decimal(n)) == Some(n as i64),
    decreases n,
{
    if n >= 10 {
        reading_undoes_printing(n / 10);
        let head = decimal(n / 10);
        let last = digit_char((n % 10) as int);
        assert(decimal(n).drop_last() =~= head);
        assert forall|i: int| 0 <= i < decimal(n).len() implies is_digit(
            #[trigger] decimal(n)[i],
        ) by {
            if i < head.len() {
                assert(decimal(n)[i] == head[i]);
            }
        }
        assert(decimal(n)[0] == head[0]);
        if head.len() == 1 {
            assert(n / 10 < 10) by {
                if n / 10 >= 10 {
                    assert(decimal(n / 10).len() == decimal(n / 10 / 10).len() + 1);
                    reading_undoes_printing(n / 10 / 10);
                }
            }
            assert(head[0] == digit_char((n / 10) as int));
        }
    } else {
        let one = decimal(n);
        assert(one.drop_last() =~= Seq::<char>::empty());
        assert(digits_value(one.drop_last()) == 0);
    }
}

/// Digits count by their place: what stands before some digits counts ten times
/// as much for each of them. One digit alone is worth its number, and a minus
/// before digits negates them.
pub proof fn digits_count_by_their_place(a: Seq<char>, b: Seq<char>, c: char)
    ensures
        digits_value(a + b) == digits_value(a) * vstd::arithmetic::power::pow(10, b.len())
            + digits_value(b),
        digits_value(seq![c]) == c as int - '0' as int,
        all_digits(a) ==> integer(seq!['-'] + a) == Some(-digits_value(a)),
        all_digits(a) ==> integer(seq!['+'] + a) == Some(digits_value(a)),
        all_digits(a) ==> integer(a) == Some(digits_value(a)),
    decreases b.len(),
{
    broadcast use vstd::arithmetic::power::lemma_pow0;

    assert(seq![c].drop_last() =~= Seq::<char>::empty());
    assert(digits_value(seq![c].drop_last()) == 0);
    if all_digits(a) {
        assert((seq!['-'] + a).skip(1) =~= a);
        assert((seq!['+'] + a).skip(1) =~= a);
        assert((seq!['-'] + a)[0] == '-' && (seq!['+'] + a)[0] == '+');
        assert(!is_digit((seq!['-'] + a)[0]) && !is_digit((seq!['+'] + a)[0]));
    }
    if b.len() == 0 {
        assert(a + b =~= a);
        assert(digits_value(b) == 0);
    } else {
        let rest = b.drop_last();
        digits_count_by_their_place(a, rest, c);
        assert((a + b).drop_last() =~= a + rest);
        assert((a + b).last() == b.last());
        let p = vstd::arithmetic::power::pow(10, rest.len());
        assert(vstd::arithmetic::power::pow(10, b.len()) == 10 * p) by {
            reveal(vstd::arithmetic::power::pow);
        }
        let v = digits_value(a);
        assert((v * p) * 10 == v * (10 * p)) by (nonlinear_arith);
    }
}

}
