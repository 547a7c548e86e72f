//! Character-level helpers shared by the transcript reader and the messages.

use vstd::prelude::*;

verus! {

/// `String::push` appends one character to the end of the string.
pub assume_specification[ String::push ](s: &mut String, c: char)
    ensures
        final(s)@ == old(s)@.push(c),
;

/// The characters of `s`, in order.
pub fn chars_of(s: &str) -> (out: Vec<char>)
    ensures
        out@ == s@,
{
    let mut out: Vec<char> = Vec::new();
    for c in it: s.chars()
        invariant
            it.seq() == s@,
            out@ == it.seq().take(it.index()),
    {
        out.push(c);
        assert(it.seq().take(it.index() + 1) == it.seq().take(it.index()).push(c));
    }
    assert(s@.take(s@.len() as int) == s@);
    out
}

/// The string made of the characters `chars[from..to]`.
pub fn string_of(chars: &Vec<char>, from: usize, to: usize) -> (out: String)
    requires
        from <= to <= chars.len(),
    ensures
        out@ == chars@.subrange(from as int, to as int),
{
    let mut out = String::new();
    let mut i: usize = from;
    while i < to
        invariant
            from <= i <= to <= chars.len(),
            out@ == chars@.subrange(from as int, i as int),
        decreases to - i,
    {
        out.push(chars[i]);
        i += 1;
        assert(chars@.subrange(from as int, i as int) == chars@.subrange(from as int, i - 1).push(
            chars@[i - 1],
        ));
    }
    out
}

/// The character of the digit `d`.
pub open spec fn digit_char(d: nat) -> char {
    if d == 0 {
        '0'
    } else if d == 1 {
        '1'
    } else if d == 2 {
        '2'
    } else if d == 3 {
        '3'
    } else if d == 4 {
        '4'
    } else if d == 5 {
        '5'
    } else if d == 6 {
        '6'
    } else if d == 7 {
        '7'
    } else if d == 8 {
        '8'
    } else {
        '9'
    }
}

/// The value of a digit character, if it is one.
pub open spec fn digit_value(c: char) -> Option<nat> {
    if c == '0' {
        Some(0)
    } else if c == '1' {
        Some(1)
    } else if c == '2' {
        Some(2)
    } else if c == '3' {
        Some(3)
    } else if c == '4' {
        Some(4)
    } else if c == '5' {
        Some(5)
    } else if c == '6' {
        Some(6)
    } else if c == '7' {
        Some(7)
    } else if c == '8' {
        Some(8)
    } else if c == '9' {
        Some(9)
    } else {
        None
    }
}

/// `n` written in decimal, without leading zeros.
pub open spec fn decimal(n: nat) -> Seq<char>
    decreases n,
{
    if n < 10 {
        seq![digit_char(n)]
    } else {
        decimal(n / 10).push(digit_char(n % 10))
    }
}

/// An amount of credit, given in half points, written in points: `11` is
/// written `5.5`, and `12` is written `6`.
pub open spec fn credit_text(half_points: nat) -> Seq<char> {
    if half_points % 2 == 1 {
        decimal(half_points / 2) + seq!['.', '5']
    } else {
        decimal(half_points / 2)
    }
}

/// The character of the digit `d`.
pub fn digit_of(d: u8) -> (c: char)
    requires
        d < 10,
    ensures
        c == digit_char(d as nat),
{
    if d == 0 {
        '0'
    } else if d == 1 {
        '1'
    } else if d == 2 {
        '2'
    } else if d == 3 {
        '3'
    } else if d == 4 {
        '4'
    } else if d == 5 {
        '5'
    } else if d == 6 {
        '6'
    } else if d == 7 {
        '7'
    } else if d == 8 {
        '8'
    } else {
        '9'
    }
}

/// The value of a digit character, if it is one.
pub fn value_of_digit(c: char) -> (d: Option<u8>)
    ensures
        match d {
            Some(v) => v < 10 && digit_value(c) == Some(v as nat),
            None => digit_value(c) is None,
        },
{
    if c == '0' {
        Some(0)
    } else if c == '1' {
        Some(1)
    } else if c == '2' {
        Some(2)
    } else if c == '3' {
        Some(3)
    } else if c == '4' {
        Some(4)
    } else if c == '5' {
        Some(5)
    } else if c == '6' {
        Some(6)
    } else if c == '7' {
        Some(7)
    } else if c == '8' {
        Some(8)
    } else if c == '9' {
        Some(9)
    } else {
        None
    }
}

/// Appends `n` in decimal.
pub fn push_decimal(s: &mut String, n: u64)
    ensures
        final(s)@ == old(s)@ + decimal(n as nat),
    decreases n,
{
    if n >= 10 {
        push_decimal(s, n / 10);
    }
    s.push(digit_of((n % 10) as u8));
    assert(s@ =~= old(s)@ + decimal(n as nat));
}

/// Appends an amount of credit, given in half points, written in points.
pub fn push_credit(s: &mut String, half_points: u64)
    ensures
        final(s)@ == old(s)@ + credit_text(half_points as nat),
{
    push_decimal(s, half_points / 2);
    if half_points % 2 == 1 {
        s.push('.');
        s.push('5');
    }
    assert(s@ =~= old(s)@ + credit_text(half_points as nat));
}

/// Whether every character of `s` is a digit.
pub open spec fn all_digits(s: Seq<char>) -> bool {
    forall|k: int| 0 <= k < s.len() ==> digit_value(#[trigger] s[k]) is Some
}

/// The number that the digits of `s` write in decimal.
pub open spec fn digits_value(s: Seq<char>) -> nat
    decreases s.len(),
{
    if s.len() == 0 {
        0
    } else {
        digits_value(s.drop_last()) * 10 + match digit_value(s.last()) {
            Some(d) => d,
            None => 0,
        }
    }
}

/// Whether `s` ends in `.0` or `.5`.
pub open spec fn has_fraction(s: Seq<char>) -> bool {
    s.len() >= 2 && s[s.len() - 2] == '.' && (s.last() == '0' || s.last() == '5')
}

/// `s` without its fraction, if it has one.
pub open spec fn whole_part(s: Seq<char>) -> Seq<char> {
    if has_fraction(s) {
        s.take(s.len() - 2)
    } else {
        s
    }
}

/// The number of half points that `s` writes: a whole number in decimal, which
/// `.0` or `.5` may follow. Anything else, and a number over `u32::MAX` half
/// points, writes none.
pub open spec fn half_points(s: Seq<char>) -> Option<nat> {
    let whole = whole_part(s);
    let halves = 2 * digits_value(whole) + if has_fraction(s) && s.last() == '5' {
        1nat
    } else {
        0nat
    };
    if whole.len() > 0 && all_digits(whole) && halves <= u32::MAX {
        Some(halves)
    } else {
        None
    }
}

/// More digits never write a smaller number.
pub proof fn digits_value_grows(s: Seq<char>, k: int)
    requires
        0 <= k <= s.len(),
    ensures
        digits_value(s.take(k)) <= digits_value(s),
    decreases s.len(),
{
    if k == s.len() {
        assert(s.take(k) == s);
    } else {
        digits_value_grows(s.drop_last(), k);
        assert(s.drop_last().take(k) == s.take(k));
    }
}

/// Reads `chars[from..to]` as a number of half points.
pub fn parse_half_points(chars: &Vec<char>, from: usize, to: usize) -> (out: Option<u32>)
    requires
        from <= to <= chars.len(),
    ensures
        match out {
            Some(v) => half_points(chars@.subrange(from as int, to as int)) == Some(v as nat),
            None => half_points(chars@.subrange(from as int, to as int)) is None,
        },
{
    let ghost s = chars@.subrange(from as int, to as int);
    let mut end: usize = to;
    let mut extra: u64 = 0;
    if to - from >= 2 && chars[to - 2] == '.' && (chars[to - 1] == '0' || chars[to - 1] == '5') {
        end = to - 2;
        if chars[to - 1] == '5' {
            extra = 1;
        }
    }
    let ghost whole = chars@.subrange(from as int, end as int);
    assert(whole == whole_part(s));
    if end == from {
        return None;
    }
    let mut acc: u64 = 0;
    let mut k: usize = from;
    while k < end
        invariant
            from <= k <= end <= to <= chars.len(),
            whole == chars@.subrange(from as int, end as int),
            s == chars@.subrange(from as int, to as int),
            whole == whole_part(s),
            acc == digits_value(whole.take(k - from)),
            all_digits(whole.take(k - from)),
            acc <= u32::MAX,
        decreases end - k,
    {
        let ghost seen = whole.take(k - from);
        let ghost next = whole.take(k + 1 - from);
        assert(next.drop_last() == seen);
        assert(next.last() == chars@[k as int]);
        match value_of_digit(chars[k]) {
            Some(d) => {
                acc = acc * 10 + d as u64;
                k += 1;
                if acc > u32::MAX as u64 {
                    proof {
                        digits_value_grows(whole, k - from);
                    }
                    return None;
                }
            },
            None => {
                assert(digit_value(whole[k - from]) is None);
                return None;
            },
        }
    }
    assert(whole.take(k - from) == whole);
    let halves = 2 * acc + extra;
    if halves > u32::MAX as u64 {
        None
    } else {
        Some(halves as u32)
    }
}

/// The position of the first `true`, or the length where there is none.
pub open spec fn first_true(flags: Seq<bool>) -> int
    decreases flags.len(),
{
    if flags.len() == 0 {
        0
    } else if flags[0] {
        0
    } else {
        1 + first_true(flags.drop_first())
    }
}

/// The first `true` lies within the flags or at their end; it is `true`, and
/// nothing before it is.
pub proof fn first_true_found(flags: Seq<bool>)
    ensures
        0 <= first_true(flags) <= flags.len(),
        first_true(flags) < flags.len() ==> flags[first_true(flags)],
        forall|k: int| 0 <= k < first_true(flags) ==> !flags[k],
    decreases flags.len(),
{
    if flags.len() > 0 && !flags[0] {
        let rest = flags.drop_first();
        first_true_found(rest);
        assert forall|k: int| 0 <= k < first_true(flags) implies !flags[k] by {
            if k > 0 {
                assert(rest[k - 1] == flags[k]);
            }
        }
    }
}

/// A position that holds `true`, or the end, with no `true` before it, is the
/// position of the first `true`.
pub proof fn first_true_is(flags: Seq<bool>, p: int)
    requires
        0 <= p <= flags.len(),
        p < flags.len() ==> flags[p],
        forall|k: int| 0 <= k < p ==> !flags[k],
    ensures
        first_true(flags) == p,
{
    first_true_found(flags);
}

/// For each character, whether it is `c`.
pub open spec fn char_flags(s: Seq<char>, c: char) -> Seq<bool> {
    Seq::new(s.len(), |k: int| s[k] == c)
}

/// The position of the first `c` in `s`, or the length of `s` where it has
/// none.
pub open spec fn first_index(s: Seq<char>, c: char) -> int {
    first_true(char_flags(s, c))
}

/// The position behind the last `c` in `s`, or 0 where it has none.
pub open spec fn after_last(s: Seq<char>, c: char) -> int
    decreases s.len(),
{
    if s.len() == 0 {
        0
    } else if s.last() == c {
        s.len() as int
    } else {
        after_last(s.drop_last(), c)
    }
}

/// Before the position behind the last `c` stands `c`, and no `c` stands from
/// there on.
pub proof fn after_last_found(s: Seq<char>, c: char)
    ensures
        0 <= after_last(s, c) <= s.len(),
        after_last(s, c) > 0 ==> s[after_last(s, c) - 1] == c,
        forall|k: int| after_last(s, c) <= k < s.len() ==> s[k] != c,
    decreases s.len(),
{
    if s.len() > 0 && s.last() != c {
        let rest = s.drop_last();
        after_last_found(rest, c);
        assert forall|k: int| after_last(s, c) <= k < s.len() implies s[k] != c by {
            if k < rest.len() {
                assert(rest[k] == s[k]);
            }
        }
    }
}

/// Whether `pat` stands in `text` at the position `i`.
pub open spec fn occurs_at(text: Seq<char>, pat: Seq<char>, i: int) -> bool {
    0 <= i && i + pat.len() <= text.len() && text.subrange(i, i + pat.len()) == pat
}

/// Whether `pat` stands somewhere in `text`.
pub open spec fn occurs(text: Seq<char>, pat: Seq<char>) -> bool {
    exists|i: int| occurs_at(text, pat, i)
}

/// The first position from `from` on, and before `to`, that holds `c`; `to`
/// where none does.
pub fn find_char(text: &Vec<char>, from: usize, to: usize, c: char) -> (out: usize)
    requires
        from <= to <= text.len(),
    ensures
        from <= out <= to,
        out - from == first_index(text@.subrange(from as int, to as int), c),
{
    let ghost flags = char_flags(text@.subrange(from as int, to as int), c);
    let mut j: usize = from;
    while j < to && text[j] != c
        invariant
            from <= j <= to <= text.len(),
            flags == char_flags(text@.subrange(from as int, to as int), c),
            forall|k: int| 0 <= k < j - from ==> !flags[k],
        decreases to - j,
    {
        j += 1;
    }
    proof {
        first_true_is(flags, j - from);
    }
    j
}

/// The position behind the last `c` in `text[from..to]`, counted from `from`.
pub fn find_after_last(text: &Vec<char>, from: usize, to: usize, c: char) -> (out: usize)
    requires
        from <= to <= text.len(),
    ensures
        out <= to - from,
        out == after_last(text@.subrange(from as int, to as int), c),
{
    let ghost s = text@.subrange(from as int, to as int);
    let mut p: usize = to;
    assert(s.take(p - from) == s);
    while p > from && text[p - 1] != c
        invariant
            from <= p <= to <= text.len(),
            s == text@.subrange(from as int, to as int),
            after_last(s, c) == after_last(s.take(p - from), c),
        decreases p,
    {
        assert(s.take(p - from).drop_last() == s.take(p - 1 - from));
        p -= 1;
    }
    p - from
}

/// Whether `pat` stands in `text[from..to]` at the position `i`, counted from
/// `from`.
pub fn matches_at(text: &Vec<char>, from: usize, to: usize, pat: &Vec<char>, i: usize) -> (out: bool)
    requires
        from <= to <= text.len(),
    ensures
        out == occurs_at(text@.subrange(from as int, to as int), pat@, i as int),
{
    let ghost s = text@.subrange(from as int, to as int);
    if i > to - from || pat.len() > to - from - i {
        return false;
    }
    let mut k: usize = 0;
    while k < pat.len()
        invariant
            k <= pat.len(),
            from <= to <= text.len(),
            i + pat.len() <= to - from,
            s == text@.subrange(from as int, to as int),
            forall|j: int| 0 <= j < k ==> s[i + j] == pat[j],
        decreases pat.len() - k,
    {
        if text[from + i + k] != pat[k] {
            assert(s.subrange(i as int, i + pat.len())[k as int] != pat[k as int]);
            return false;
        }
        k += 1;
    }
    assert(s.subrange(i as int, i + pat.len()) =~= pat@);
    true
}

/// Whether `pat` stands somewhere in `text[from..to]`.
pub fn occurs_in(text: &Vec<char>, from: usize, to: usize, pat: &Vec<char>) -> (out: bool)
    requires
        from <= to <= text.len(),
    ensures
        out == occurs(text@.subrange(from as int, to as int), pat@),
{
    let ghost s = text@.subrange(from as int, to as int);
    if pat.len() > to - from {
        return false;
    }
    let last = to - from - pat.len();
    let mut i: usize = 0;
    while i < last
        invariant
            i <= last,
            from <= to <= text.len(),
            last == to - from - pat.len(),
            s == text@.subrange(from as int, to as int),
            forall|j: int| 0 <= j < i ==> !occurs_at(s, pat@, j),
        decreases last - i,
    {
        if matches_at(text, from, to, pat, i) {
            return true;
        }
        i += 1;
    }
    matches_at(text, from, to, pat, last)
}

/// Whether every character of `text[from..to]` is a digit.
pub fn only_digits(text: &Vec<char>, from: usize, to: usize) -> (out: bool)
    requires
        from <= to <= text.len(),
    ensures
        out == all_digits(text@.subrange(from as int, to as int)),
{
    let ghost s = text@.subrange(from as int, to as int);
    let mut k: usize = from;
    while k < to
        invariant
            from <= k <= to <= text.len(),
            s == text@.subrange(from as int, to as int),
            forall|j: int| 0 <= j < k - from ==> digit_value(#[trigger] s[j]) is Some,
        decreases to - k,
    {
        if value_of_digit(text[k]).is_none() {
            assert(digit_value(s[k - from]) is None);
            return false;
        }
        k += 1;
    }
    true
}

} // verus!
