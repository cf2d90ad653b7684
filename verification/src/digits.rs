//! Decimal digit strings and the natural numbers they denote.

use vstd::prelude::*;
use vstd::string::*;

verus! {

/// `c` is one of the ten ASCII digits.
pub open spec fn is_digit(c: char) -> bool {
    '0' <= c && c <= '9'
}

/// The number that the digit `c` stands for.
pub open spec fn digit_value(c: char) -> nat
    recommends
        is_digit(c),
{
    (c as u32 - '0' as u32) as nat
}

/// The digit that stands for `d`.
pub open spec fn digit_char(d: nat) -> char
    recommends
        d < 10,
{
    if d == 0 {
        '0'
    } else if d == 1 {
        '1'
    } else if d == 2 {
        '2'
    } else if d == 3 {
        '3'
    } else if d == 4 {
        '4'
    } else if d == 5 {
        '5'
    } else if d == 6 {
        '6'
    } else if d == 7 {
        '7'
    } else if d == 8 {
        '8'
    } else {
        '9'
    }
}

/// Every character of `s` is a digit.
pub open spec fn all_digits(s: Seq<char>) -> bool {
    forall|i: int| 0 <= i < s.len() ==> is_digit(#[trigger] s[i])
}

/// The number written by the digits `s`, most significant first. The empty
/// string denotes zero.
pub open spec fn digits_value(s: Seq<char>) -> nat
    decreases s.len(),
{
    if s.len() == 0 {
        0
    } else {
        10 * digits_value(s.drop_last()) + digit_value(s.last())
    }
}

/// The shortest digit string that denotes `n`: no leading zero, and `"0"` for
/// zero.
pub open spec fn digits_of(n: nat) -> Seq<char>
    decreases n,
{
    if n < 10 {
        seq![digit_char(n)]
    } else {
        digits_of(n / 10).push(digit_char(n % 10))
    }
}

/// Appending one digit multiplies by ten and adds the digit.
pub proof fn lemma_value_push(s: Seq<char>, c: char)
    ensures
        digits_value(s.push(c)) == 10 * digits_value(s) + digit_value(c),
{
    assert(s.push(c).drop_last() == s);
}

/// A digit string denotes at least what any of its prefixes denotes.
pub proof fn lemma_value_grows(a: Seq<char>, b: Seq<char>)
    ensures
        digits_value(a) <= digits_value(a + b),
    decreases b.len(),
{
    if b.len() == 0 {
        assert(a + b == a);
    } else {
        lemma_value_grows(a, b.drop_last());
        assert((a + b).drop_last() == a + b.drop_last());
    }
}

/// `digits_of` writes digits only, at least one, and they denote the number
/// they were made from.
pub proof fn lemma_digits_of(n: nat)
    ensures
        all_digits(digits_of(n)),
        digits_of(n).len() >= 1,
        digits_value(digits_of(n)) == n,
        n > 0 ==> digits_of(n)[0] != '0',
    decreases n,
{
    if n < 10 {
        let s = digits_of(n);
        assert(s.drop_last() == Seq::<char>::empty());
        assert(digits_value(s.drop_last()) == 0);
    } else {
        lemma_digits_of(n / 10);
        lemma_value_push(digits_of(n / 10), digit_char(n % 10));
    }
}

/// The last digit of a number is its remainder by ten.
pub proof fn lemma_last_digit(n: nat)
    ensures
        digits_of(n).last() == digit_char(n % 10),
    decreases n,
{
    if n >= 10 {
        assert(digits_of(n) == digits_of(n / 10).push(digit_char(n % 10)));
    }
}

/// The characters of a string, one by one.
pub fn text_chars(text: &str) -> (chars: Vec<char>)
    ensures
        chars@ == text@,
{
    broadcast use vstd::string::group_string_axioms;

    let mut chars: Vec<char> = Vec::new();
    for c in it: text.chars()
        invariant
            it.seq() == text@,
            chars@ == text@.take(it.index()),
    {
        chars.push(c);
    }
    assert(text@.take(text@.len() as int) == text@);
    chars
}

/// The character of the digit `d`.
pub(crate) fn digit(d: u8) -> (c: char)
    requires
        d < 10,
    ensures
        c == digit_char(d as nat),
        is_digit(c),
        digit_value(c) == d,
{
    match d {
        0 => '0',
        1 => '1',
        2 => '2',
        3 => '3',
        4 => '4',
        5 => '5',
        6 => '6',
        7 => '7',
        8 => '8',
        _ => '9',
    }
}

/// Reads the digits `chars[from..to]` as the continuation of a number whose
/// leading digits `before` have been read as `acc`. The result is `None` when a
/// character is no digit or the number does not fit in 128 bits.
pub(crate) fn accumulate(
    chars: &Vec<char>,
    from: usize,
    to: usize,
    acc: u128,
    Ghost(before): Ghost<Seq<char>>,
) -> (total: Option<u128>)
    requires
        from <= to <= chars.len(),
        acc == digits_value(before),
    ensures
        match total {
            Some(v) => all_digits(chars@.subrange(from as int, to as int)) && v == digits_value(
                before + chars@.subrange(from as int, to as int),
            ),
            None => !all_digits(chars@.subrange(from as int, to as int)) || digits_value(
                before + chars@.subrange(from as int, to as int),
            ) > u128::MAX,
        },
{
    let ghost whole = chars@.subrange(from as int, to as int);
    let mut total: u128 = acc;
    let mut i: usize = from;
    while i < to
        invariant
            from <= i <= to <= chars.len(),
            whole == chars@.subrange(from as int, to as int),
            all_digits(chars@.subrange(from as int, i as int)),
            total == digits_value(before + chars@.subrange(from as int, i as int)),
        decreases to - i,
    {
        let c = chars[i];
        let ghost read = chars@.subrange(from as int, i as int);
        let ghost next = chars@.subrange(from as int, i + 1);
        assert(next == read.push(c));
        assert(before + next == (before + read).push(c));
        if !('0' <= c && c <= '9') {
            assert(whole[i - from] == c);
            return None;
        }
        let d: u128 = (c as u32 - '0' as u32) as u128;
        proof {
            lemma_value_push(before + read, c);
        }
        if total > (u128::MAX - d) / 10 {
            proof {
                let rest = chars@.subrange(i + 1, to as int);
                assert(next + rest == whole);
                assert((before + next) + rest == before + whole);
                lemma_value_grows(before + next, rest);
            }
            return None;
        }
        total = total * 10 + d;
        i = i + 1;
    }
    assert(chars@.subrange(from as int, i as int) == whole);
    Some(total)
}

/// What a string means as an unsigned integer: an optional `+`, then one or
/// more digits whose value fits in 128 bits. Anything else means nothing.
pub open spec fn unsigned_reading(s: Seq<char>) -> Option<u128> {
    let body = if s.len() > 0 && s[0] == '+' {
        s.drop_first()
    } else {
        s
    };
    if body.len() > 0 && all_digits(body) && digits_value(body) <= u128::MAX {
        Some(digits_value(body) as u128)
    } else {
        None
    }
}

/// Reads an unsigned integer from its decimal notation.
pub fn parse_unsigned(text: &str) -> (value: Option<u128>)
    ensures
        value == unsigned_reading(text@),
{
    let chars = text_chars(text);
    let n = chars.len();
    let from: usize = if n > 0 && chars[0] == '+' {
        1
    } else {
        0
    };
    if from == n {
        return None;
    }
    let ghost body = chars@.subrange(from as int, n as int);
    assert(body == if text@.len() > 0 && text@[0] == '+' {
        text@.drop_first()
    } else {
        text@
    });
    assert(Seq::<char>::empty() + body == body);
    assert(digits_value(Seq::<char>::empty()) == 0);
    accumulate(&chars, from, n, 0, Ghost(Seq::empty()))
}

/// The digits of `n`, most significant first.
pub fn unsigned_digits(n: u128) -> (digits: Vec<char>)
    ensures
        digits@ == digits_of(n as nat),
    decreases n,
{
    if n < 10 {
        let mut digits: Vec<char> = Vec::new();
        digits.push(digit(n as u8));
        assert(digits@ == seq![digit_char(n as nat)]);
        digits
    } else {
        let mut digits = unsigned_digits(n / 10);
        digits.push(digit((n % 10) as u8));
        digits
    }
}

/// Appends `source[from..to]` to `target`.
pub(crate) fn append_range(target: &mut Vec<char>, source: &Vec<char>, from: usize, to: usize)
    requires
        from <= to <= source.len(),
    ensures
        final(target)@ == old(target)@ + source@.subrange(from as int, to as int),
{
    let mut i: usize = from;
    while i < to
        invariant
            from <= i <= to <= source.len(),
            target@ == old(target)@ + source@.subrange(from as int, i as int),
        decreases to - i,
    {
        target.push(source[i]);
        assert(source@.subrange(from as int, i + 1) == source@.subrange(from as int, i as int).push(
            source@[i as int],
        ));
        i = i + 1;
    }
}

/// `String::push` of the standard library: it appends the character to the end
/// of the string and changes nothing else.
pub assume_specification[ String::push ](text: &mut String, c: char)
    ensures
        final(text)@ == old(text)@.push(c),
;

/// The string made of the given characters.
pub fn text_of(chars: &Vec<char>) -> (text: String)
    ensures
        text@ == chars@,
{
    let mut text = String::new();
    let mut i: usize = 0;
    while i < chars.len()
        invariant
            i <= chars.len(),
            text@ == chars@.take(i as int),
        decreases chars.len() - i,
    {
        text.push(chars[i]);
        assert(chars@.take(i + 1) == chars@.take(i as int).push(chars@[i as int]));
        i = i + 1;
    }
    assert(chars@.take(chars.len() as int) == chars@);
    text
}

} // verus!
