//! Unsigned decimal numbers as text.
use vstd::prelude::*;
use vstd::string::*;

use crate::text::chars_of;

verus! {

/// `c` is one of the ten ASCII digits.
pub open spec fn is_digit(c: char) -> bool {
    '0' <= c && c <= '9'
}

/// The number that an ASCII digit stands for.
pub open spec fn digit_value(c: char) -> nat {
    (c as int - '0' as int) as nat
}

/// The ASCII digit for a number below ten.
pub open spec fn digit_char(d: nat) -> char {
    if d == 0 {
        '0'
    } else if d == 1 {
        '1'
    } else if d == 2 {
        '2'
    } else if d == 3 {
        '3'
    } else if d == 4 {
        '4'
    } else if d == 5 {
        '5'
    } else if d == 6 {
        '6'
    } else if d == 7 {
        '7'
    } else if d == 8 {
        '8'
    } else {
        '9'
    }
}

/// Every character of `s` is a digit.
pub open spec fn all_digits(s: Seq<char>) -> bool {
    forall|i: int| 0 <= i < s.len() ==> is_digit(#[trigger] s[i])
}

/// The number that a sequence of digits stands for.
pub open spec fn digits_value(s: Seq<char>) -> nat
    decreases s.len(),
{
    if s.len() == 0 {
        0
    } else {
        10 * digits_value(s.drop_last()) + digit_value(s.last())
    }
}

/// `s` without one leading plus sign.
pub open spec fn unsigned_part(s: Seq<char>) -> Seq<char> {
    if s.len() > 0 && s[0] == '+' {
        s.skip(1)
    } else {
        s
    }
}

/// The number that `s` reads as: one or more digits, behind an optional plus
/// sign, with a value that fits a `usize`.
pub open spec fn read_usize(s: Seq<char>) -> Option<usize> {
    let t = unsigned_part(s);
    if t.len() > 0 && all_digits(t) && digits_value(t) <= usize::MAX {
        Some(digits_value(t) as usize)
    } else {
        None
    }
}

/// The shortest decimal text of `n`.
pub open spec fn decimal(n: nat) -> Seq<char>
    decreases n,
{
    if n < 10 {
        seq![digit_char(n)]
    } else {
        decimal(n / 10).push(digit_char(n % 10))
    }
}

proof fn lemma_prefix_not_larger(s: Seq<char>, k: int)
    requires
        0 <= k <= s.len(),
    ensures
        digits_value(s.take(k)) <= digits_value(s),
    decreases s.len() - k,
{
    if k == s.len() {
        assert(s.take(k) =~= s);
    } else {
        lemma_prefix_not_larger(s, k + 1);
        assert(s.take(k + 1).drop_last() =~= s.take(k));
    }
}

/// The number that `s` reads as, or `None` where it is no number or too large.
pub fn parse_usize(s: &str) -> (r: Option<usize>)
    ensures
        r == read_usize(s@),
{
    let cs = chars_of(s);
    let ghost t = unsigned_part(s@);
    let start: usize = if cs.len() > 0 && cs[0] == '+' {
        1
    } else {
        0
    };
    if start == cs.len() {
        return None;
    }
    let mut i: usize = start;
    let mut acc: usize = 0;
    while i < cs.len()
        invariant
            cs@ == s@,
            t == unsigned_part(s@),
            start <= i <= cs.len(),
            start == (if s@.len() > 0 && s@[0] == '+' { 1int } else { 0int }),
            t.len() == s@.len() - start,
            t.len() > 0,
            forall|k: int| 0 <= k < t.len() ==> #[trigger] t[k] == s@[k + start],
            forall|k: int| 0 <= k < i - start ==> is_digit(#[trigger] t[k]),
            acc == digits_value(t.take(i - start)),
        decreases cs.len() - i,
    {
        let c = cs[i];
        assert(t[i - start] == c);
        if !('0' <= c && c <= '9') {
            assert(!is_digit(t[i - start]));
            return None;
        }
        let d: usize = (c as u32 - '0' as u32) as usize;
        let ghost k = i - start;
        assert(t.take(k + 1).drop_last() =~= t.take(k));
        assert(digits_value(t.take(k + 1)) == 10 * acc + d);
        proof {
            lemma_prefix_not_larger(t, k + 1);
        }
        if acc > (usize::MAX - d) / 10 {
            assert(10 * acc + d > usize::MAX);
            return None;
        }
        acc = acc * 10 + d;
        i = i + 1;
    }
    assert(t.take(t.len() as int) =~= t);
    Some(acc)
}

fn digit_text(d: usize) -> (r: &'static str)
    requires
        d < 10,
    ensures
        r@ == seq![digit_char(d as nat)],
{
    proof {
        reveal_strlit("0");
        reveal_strlit("1");
        reveal_strlit("2");
        reveal_strlit("3");
        reveal_strlit("4");
        reveal_strlit("5");
        reveal_strlit("6");
        reveal_strlit("7");
        reveal_strlit("8");
        reveal_strlit("9");
    }
    let r = if d == 0 {
        "0"
    } else if d == 1 {
        "1"
    } else if d == 2 {
        "2"
    } else if d == 3 {
        "3"
    } else if d == 4 {
        "4"
    } else if d == 5 {
        "5"
    } else if d == 6 {
        "6"
    } else if d == 7 {
        "7"
    } else if d == 8 {
        "8"
    } else {
        "9"
    };
    assert(r@ =~= seq![digit_char(d as nat)]);
    r
}

/// Writes `n` as decimal text.
pub fn format_usize(n: usize) -> (r: String)
    ensures
        r@ == decimal(n as nat),
    decreases n,
{
    if n < 10 {
        digit_text(n).to_owned()
    } else {
        let mut r = format_usize(n / 10);
        r.append(digit_text(n % 10));
        assert(r@ =~= decimal(n as nat));
        r
    }
}

/// Decimal text is made of digits alone, there is at least one, and it stands
/// for the number that was written.
pub proof fn lemma_decimal_value(n: nat)
    ensures
        decimal(n).len() > 0,
        all_digits(decimal(n)),
        digits_value(decimal(n)) == n,
    decreases n,
{
    if n < 10 {
        let s = decimal(n);
        assert(s.drop_last() =~= Seq::<char>::empty());
        assert(digits_value(s.drop_last()) == 0);
        assert(s.last() == digit_char(n));
        assert(digit_value(digit_char(n)) == n);
    } else {
        lemma_decimal_value(n / 10);
        let s = decimal(n);
        assert(s.drop_last() =~= decimal(n / 10));
        assert(s.last() == digit_char(n % 10));
        assert(digit_value(digit_char(n % 10)) == n % 10);
    }
}

/// Reading back the decimal text of a `usize` gives that `usize`.
pub proof fn law_decimal_round_trip(n: usize)
    ensures
        read_usize(decimal(n as nat)) == Some(n),
{
    lemma_decimal_value(n as nat);
    let s = decimal(n as nat);
    assert(is_digit(s[0]));
}

// What numbers look like.

/// A digit behind a number makes it ten times as large and adds the digit; a
/// number that no longer fits is none.
pub proof fn law_digits_add_up(s: Seq<char>, c: char)
    requires
        s.len() > 0,
        forall|i: int| 0 <= i < s.len() ==> '0' <= #[trigger] s[i] && s[i] <= '9',
        '0' <= c && c <= '9',
    ensures
        read_usize(seq![c]) == Some((c as int - '0' as int) as usize),
        read_usize(s) is None ==> read_usize(s.push(c)) is None,
        read_usize(s) is Some ==> ({
            let v = 10 * read_usize(s)->0 + (c as int - '0' as int);
            if v <= usize::MAX {
                read_usize(s.push(c)) == Some(v as usize)
            } else {
                read_usize(s.push(c)) is None
            }
        }),
{
    let one = seq![c];
    assert(one.drop_last() =~= Seq::<char>::empty());
    assert(digits_value(one.drop_last()) == 0);
    assert(digits_value(one) == digit_value(c));
    assert(all_digits(one)) by {
        assert(is_digit(one[0]));
    }
    assert forall|i: int| 0 <= i < s.len() implies is_digit(#[trigger] s[i]) by {}
    let t = s.push(c);
    assert(t.drop_last() =~= s);
    assert forall|i: int| 0 <= i < t.len() implies is_digit(#[trigger] t[i]) by {
        if i < s.len() {
            assert(t[i] == s[i]);
            assert(is_digit(s[i]));
        }
    }
    assert(s[0] != '+');
    assert(t[0] == s[0]);
}

/// A plus sign before a number changes nothing; a text that is empty, or that
/// holds anything else than digits behind its sign, is no number.
pub proof fn law_only_digits_are_numbers(s: Seq<char>, i: int)
    ensures
        read_usize(Seq::<char>::empty()) is None,
        read_usize(seq!['+']) is None,
        s.len() > 0 && s[0] != '+' ==> read_usize(seq!['+'] + s) == read_usize(s),
        0 <= i < s.len() && !('0' <= s[i] && s[i] <= '9') && (i > 0 || s[0] != '+') ==> read_usize(
            s,
        ) is None,
{
    let plus = seq!['+'];
    assert(plus.skip(1) =~= Seq::<char>::empty());
    let both = plus + s;
    assert(both.skip(1) =~= s);
    if 0 <= i < s.len() && !('0' <= s[i] && s[i] <= '9') && (i > 0 || s[0] != '+') {
        let t = unsigned_part(s);
        if s[0] == '+' {
            assert(t[i - 1] == s[i]);
            assert(!is_digit(t[i - 1]));
        } else {
            assert(!is_digit(t[i]));
        }
    }
}

/// A number is written without leading zeros, and with digits only.
pub proof fn law_decimal_has_no_leading_zero(n: nat, i: int)
    ensures
        decimal(n).len() > 0,
        0 <= i < decimal(n).len() ==> '0' <= decimal(n)[i] && decimal(n)[i] <= '9',
        n > 0 ==> decimal(n)[0] != '0',
        n == 0 ==> decimal(n) == seq!['0'],
        decimal(n).len() > 1 ==> n >= 10,
    decreases n,
{
    lemma_decimal_value(n);
    if n >= 10 {
        law_decimal_has_no_leading_zero(n / 10, 0);
    }
    if 0 <= i < decimal(n).len() {
        assert(is_digit(decimal(n)[i]));
    }
}

} // verus!
