use vstd::prelude::*;
use vstd::string::StringExecFns;

verus! {

/// Whether two texts are equal, character by character.
pub(crate) fn same_text(a: &str, b: &str) -> (same: bool)
    ensures
        same == (a@ == b@),
{
    a.to_owned() == b.to_owned()
}

/// Appends a character to a text. It is `String::push`, which appends the
/// character and leaves what was there as it is.
#[verifier::external_body]
pub(crate) fn push_char(s: &mut String, c: char)
    ensures
        final(s)@ == old(s)@.push(c),
{
    s.push(c)
}

/// The character for a digit.
pub open spec fn digit(d: nat) -> char {
    if d == 0 {
        '0'
    } else if d == 1 {
        '1'
    } else if d == 2 {
        '2'
    } else if d == 3 {
        '3'
    } else if d == 4 {
        '4'
    } else if d == 5 {
        '5'
    } else if d == 6 {
        '6'
    } else if d == 7 {
        '7'
    } else if d == 8 {
        '8'
    } else {
        '9'
    }
}

/// The digits of a number in base ten, without leading zeros.
pub open spec fn decimal(n: nat) -> Seq<char>
    decreases n,
{
    if n < 10 {
        seq![digit(n)]
    } else {
        decimal(n / 10).push(digit(n % 10))
    }
}

/// The character for a digit.
fn digit_char(d: u64) -> (c: char)
    requires
        d < 10,
    ensures
        c == digit(d as nat),
{
    if d == 0 {
        '0'
    } else if d == 1 {
        '1'
    } else if d == 2 {
        '2'
    } else if d == 3 {
        '3'
    } else if d == 4 {
        '4'
    } else if d == 5 {
        '5'
    } else if d == 6 {
        '6'
    } else if d == 7 {
        '7'
    } else if d == 8 {
        '8'
    } else {
        '9'
    }
}

/// The number in base ten, without leading zeros.
pub fn decimal_text(n: u64) -> (s: String)
    ensures
        s@ == decimal(n as nat),
{
    let mut digits: Vec<char> = Vec::new();
    let mut rest: u64 = n;
    let mut more: bool = true;
    assert(decimal(n as nat) + digits@.reverse() =~= decimal(n as nat));
    while more
        invariant
            more ==> decimal(n as nat) == decimal(rest as nat) + digits@.reverse(),
            !more ==> decimal(n as nat) == digits@.reverse(),
        decreases rest + if more { 1int } else { 0int },
    {
        let ghost before = digits@;
        let d = rest % 10;
        digits.push(digit_char(d));
        assert(digits@.reverse() =~= seq![digit(d as nat)] + before.reverse());
        if rest < 10 {
            more = false;
            assert(seq![digit(d as nat)] + before.reverse() =~= decimal(rest as nat)
                + before.reverse());
        } else {
            assert(decimal((rest / 10) as nat).push(digit(d as nat)) + before.reverse()
                =~= decimal((rest / 10) as nat) + (seq![digit(d as nat)] + before.reverse()));
            rest = rest / 10;
        }
    }
    let mut s = String::new();
    let mut k: usize = digits.len();
    assert(digits@.reverse().take(0) =~= Seq::empty());
    while k > 0
        invariant
            k <= digits.len(),
            s@ == digits@.reverse().take(digits.len() - k),
        decreases k,
    {
        k = k - 1;
        push_char(&mut s, digits[k]);
        assert(s@ =~= digits@.reverse().take(digits.len() - k));
    }
    assert(digits@.reverse().take(digits.len() as int) =~= digits@.reverse());
    s
}

/// A whole number in base ten, with `-` before it where it is negative.
pub open spec fn signed_decimal(n: int) -> Seq<char> {
    if n < 0 {
        seq!['-'] + decimal((-n) as nat)
    } else {
        decimal(n as nat)
    }
}

/// The number in base ten, with `-` before it where it is negative.
pub fn signed_decimal_text(n: i64) -> (s: String)
    ensures
        s@ == signed_decimal(n as int),
{
    if n < 0 {
        let size: u64 = (-(n as i128)) as u64;
        let mut s = String::new();
        push_char(&mut s, '-');
        let digits = decimal_text(size);
        s.append(digits.as_str());
        assert(s@ =~= seq!['-'] + decimal((-n) as nat));
        s
    } else {
        decimal_text(n as u64)
    }
}

/// Half of a whole number in base ten: a whole number, or one that ends
/// in `.5`; with `-` before it where it is negative.
pub open spec fn halves(twice: int) -> Seq<char> {
    if twice % 2 == 0 {
        signed_decimal(twice / 2)
    } else if twice < 0 {
        seq!['-'] + decimal(((-twice) / 2) as nat) + ".5"@
    } else {
        decimal((twice / 2) as nat) + ".5"@
    }
}

/// Half of `twice` in base ten.
pub fn halves_text(twice: i64) -> (s: String)
    ensures
        s@ == halves(twice as int),
{
    if twice % 2 == 0 {
        signed_decimal_text(twice / 2)
    } else if twice < 0 {
        let size: u64 = ((-(twice as i128)) / 2) as u64;
        let mut s = String::new();
        push_char(&mut s, '-');
        s.append(decimal_text(size).as_str());
        s.append(".5");
        s
    } else {
        let mut s = decimal_text((twice / 2) as u64);
        s.append(".5");
        s
    }
}

/// The value of a digit, and `None` for a character that is none.
pub open spec fn digit_value(c: char) -> Option<nat> {
    if c == '0' {
        Some(0)
    } else if c == '1' {
        Some(1)
    } else if c == '2' {
        Some(2)
    } else if c == '3' {
        Some(3)
    } else if c == '4' {
        Some(4)
    } else if c == '5' {
        Some(5)
    } else if c == '6' {
        Some(6)
    } else if c == '7' {
        Some(7)
    } else if c == '8' {
        Some(8)
    } else if c == '9' {
        Some(9)
    } else {
        None
    }
}

/// The number that the digits stand for in base ten, and `None` where one
/// of the characters is no digit. No digits stand for zero.
pub open spec fn digits_value(digits: Seq<char>) -> Option<nat>
    decreases digits.len(),
{
    if digits.len() == 0 {
        Some(0)
    } else {
        match (digits_value(digits.drop_last()), digit_value(digits.last())) {
            (Some(front), Some(last)) => Some(front * 10 + last),
            _ => None,
        }
    }
}

/// The number that a text stands for: the text is one digit or more, with
/// or without `+` before them, and the number is at most `limit`.
pub open spec fn number_of(s: Seq<char>, limit: nat) -> Option<nat> {
    let digits = if s.len() > 0 && s[0] == '+' {
        s.skip(1)
    } else {
        s
    };
    if digits.len() == 0 {
        None
    } else {
        match digits_value(digits) {
            Some(n) => if n <= limit {
                Some(n)
            } else {
                None
            },
            None => None,
        }
    }
}

/// The value of a digit.
fn value_of_digit(c: char) -> (r: Option<u64>)
    ensures
        match r {
            Some(d) => digit_value(c) == Some(d as nat) && d < 10,
            None => digit_value(c).is_none(),
        },
{
    if c == '0' {
        Some(0)
    } else if c == '1' {
        Some(1)
    } else if c == '2' {
        Some(2)
    } else if c == '3' {
        Some(3)
    } else if c == '4' {
        Some(4)
    } else if c == '5' {
        Some(5)
    } else if c == '6' {
        Some(6)
    } else if c == '7' {
        Some(7)
    } else if c == '8' {
        Some(8)
    } else if c == '9' {
        Some(9)
    } else {
        None
    }
}

/// Once the digits stand for no number, or for one beyond a limit, more
/// digits do not mend it.
proof fn digits_stay_large(digits: Seq<char>, k: int, limit: nat)
    requires
        0 <= k <= digits.len(),
        match digits_value(digits.take(k)) {
            Some(n) => n > limit,
            None => true,
        },
    ensures
        match digits_value(digits) {
            Some(n) => n > limit,
            None => true,
        },
    decreases digits.len() - k,
{
    if k < digits.len() {
        assert(digits.take(k + 1).drop_last() =~= digits.take(k));
        digits_stay_large(digits, k + 1, limit);
    } else {
        assert(digits.take(k) =~= digits);
    }
}

/// Reads a whole number that is not negative, as `str::parse` reads one:
/// digits, with or without `+` before them. `None` where the text is not of
/// that form or the number is more than `u64::MAX`.
pub fn parse_number(s: &str) -> (r: Option<u64>)
    ensures
        match r {
            Some(n) => number_of(s@, u64::MAX as nat) == Some(n as nat),
            None => number_of(s@, u64::MAX as nat).is_none(),
        },
{
    let chars = chars_of(s);
    let mut i: usize = 0;
    if chars.len() > 0 && chars[0] == '+' {
        i = 1;
    }
    let first = i;
    let ghost digits = if s@.len() > 0 && s@[0] == '+' {
        s@.skip(1)
    } else {
        s@
    };
    assert(digits =~= chars@.skip(first as int));
    if i == chars.len() {
        return None;
    }
    let mut n: u64 = 0;
    assert(digits.take(0) =~= Seq::empty());
    while i < chars.len()
        invariant
            first <= i <= chars.len(),
            chars@ == s@,
            first < chars.len(),
            first == if s@.len() > 0 && s@[0] == '+' {
                1usize
            } else {
                0usize
            },
            digits == chars@.skip(first as int),
            digits == if s@.len() > 0 && s@[0] == '+' {
                s@.skip(1)
            } else {
                s@
            },
            digits_value(digits.take(i - first)) == Some(n as nat),
        decreases chars.len() - i,
    {
        proof {
            assert(digits.take(i - first + 1).drop_last() =~= digits.take(i - first));
            assert(digits.take(i - first + 1).last() == chars@[i as int]);
        }
        let d = match value_of_digit(chars[i]) {
            Some(d) => d,
            None => {
                proof {
                    assert(digits_value(digits.take(i - first + 1)).is_none());
                    digits_stay_large(digits, i - first + 1, u64::MAX as nat);
                }
                return None;
            },
        };
        if n > (u64::MAX - d) / 10 {
            proof {
                assert(digits_value(digits.take(i - first + 1)) == Some((n * 10 + d) as nat));
                assert(n * 10 + d > u64::MAX);
                digits_stay_large(digits, i - first + 1, u64::MAX as nat);
            }
            return None;
        }
        n = n * 10 + d;
        i = i + 1;
    }
    assert(digits.take(chars.len() - first) =~= digits);
    Some(n)
}

/// The characters of a text.
pub fn chars_of(s: &str) -> (v: Vec<char>)
    ensures
        v@ == s@,
{
    let mut v: Vec<char> = Vec::new();
    for c in iter: s.chars()
        invariant
            iter.seq() == s@,
            v@ == s@.take(iter.index() as int),
    {
        v.push(c);
        assert(v@ =~= s@.take(iter.index() + 1));
    }
    assert(s@.take(s@.len() as int) =~= s@);
    v
}

/// The text made of the characters of `chars` from index `from` up to but
/// not including index `to`.
pub fn text_of(chars: &Vec<char>, from: usize, to: usize) -> (s: String)
    requires
        from <= to <= chars.len(),
    ensures
        s@ == chars@.subrange(from as int, to as int),
{
    let mut s = String::new();
    let mut i: usize = from;
    assert(chars@.subrange(from as int, from as int) =~= Seq::empty());
    while i < to
        invariant
            from <= i <= to,
            to <= chars.len(),
            s@ == chars@.subrange(from as int, i as int),
        decreases to - i,
    {
        push_char(&mut s, chars[i]);
        assert(s@ =~= chars@.subrange(from as int, i as int + 1));
        i = i + 1;
    }
    s
}

} // verus!
