//! Exact non-negative decimal numbers: asset quantities, prices and values.

use vstd::prelude::*;
use vstd::string::*;
use crate::digits::{
    accumulate, all_digits, append_range, digit_char, digit_value, digits_of, digits_value,
    is_digit, lemma_digits_of, lemma_last_digit, lemma_value_grows, text_chars, text_of,
    unsigned_digits,
};

verus! {

/// How many decimal places separate the smallest unit of the asset from one
/// whole unit of it.
pub const BASE_UNIT_SCALE: u8 = 18;

/// The number `units / 10^scale`.
///
/// Every operation of this module returns the canonical form of its result,
/// the one with the smallest scale, so that two results are the same number
/// exactly when they are equal field by field.
#[derive(Clone, Copy, Debug, PartialEq, Eq, Structural)]
pub struct Decimal {
    pub units: u128,
    pub scale: u8,
}

/// Ten to the power `n`.
pub open spec fn pow10(n: nat) -> nat
    decreases n,
{
    if n == 0 {
        1
    } else {
        10 * pow10((n - 1) as nat)
    }
}

/// The canonical way to write `units / 10^scale`: trailing zeros of `units`
/// are dropped as long as there are decimal places to give up.
pub open spec fn reduced(units: nat, scale: nat) -> (nat, nat)
    decreases scale,
{
    if scale > 0 && units % 10 == 0 {
        reduced(units / 10, (scale - 1) as nat)
    } else {
        (units, scale)
    }
}

/// The exact product of two decimals in canonical form, where 128 bits hold
/// the product of their units and 8 bits hold its scale.
pub open spec fn product(a: Decimal, b: Decimal) -> Option<Decimal> {
    let r = reduced(a.units as nat * b.units as nat, a.scale as nat + b.scale as nat);
    if a.units * b.units <= u128::MAX && r.1 <= u8::MAX {
        Some(Decimal { units: r.0 as u128, scale: r.1 as u8 })
    } else {
        None
    }
}

/// `p` is where the first `.` of `s` stands, or the length of `s` where it
/// has none.
pub open spec fn is_point_index(s: Seq<char>, p: int) -> bool {
    &&& 0 <= p <= s.len()
    &&& forall|j: int| 0 <= j < p ==> s[j] != '.'
    &&& p < s.len() ==> s[p] == '.'
}

/// Where the first `.` of `s` stands, or the length of `s` where it has none.
pub open spec fn point_index(s: Seq<char>) -> int {
    choose|p: int| is_point_index(s, p)
}

/// `k` is the length of `s` without its trailing zeros.
pub open spec fn is_kept_len(s: Seq<char>, k: int) -> bool {
    &&& 0 <= k <= s.len()
    &&& forall|j: int| k <= j < s.len() ==> s[j] == '0'
    &&& k > 0 ==> s[k - 1] != '0'
}

/// The length of `s` without its trailing zeros.
pub open spec fn kept_len(s: Seq<char>) -> int {
    choose|k: int| is_kept_len(s, k)
}

/// The part of `s` that follows an optional leading `+`.
pub open spec fn unsigned_part(s: Seq<char>) -> Seq<char> {
    if s.len() > 0 && s[0] == '+' {
        s.drop_first()
    } else {
        s
    }
}

/// The digits before the point of an unsigned decimal notation.
pub open spec fn whole_part(body: Seq<char>) -> Seq<char> {
    body.take(point_index(body))
}

/// The digits after the point of an unsigned decimal notation; none where
/// there is no point.
pub open spec fn fraction_part(body: Seq<char>) -> Seq<char> {
    if point_index(body) < body.len() {
        body.skip(point_index(body) + 1)
    } else {
        Seq::empty()
    }
}

/// The digits after the point that count: all but the trailing zeros.
pub open spec fn kept_part(fraction: Seq<char>) -> Seq<char> {
    fraction.take(kept_len(fraction))
}

/// What the digits before the point, those after it, and those after it that
/// count mean together.
pub open spec fn parts_reading(whole: Seq<char>, fraction: Seq<char>, kept: Seq<char>) -> Option<
    Decimal,
> {
    if whole.len() + fraction.len() > 0 && all_digits(whole) && all_digits(fraction)
        && digits_value(whole + kept) <= u128::MAX && kept.len() <= u8::MAX {
        Some(Decimal { units: digits_value(whole + kept) as u128, scale: kept.len() as u8 })
    } else {
        None
    }
}

/// What a string means as a decimal: an optional `+`, digits, and optionally a
/// point and more digits, with a digit on at least one side of the point.
/// Trailing zeros after the point do not count. The string means nothing where
/// it has another shape, or where the digits that count exceed 128 bits or
/// leave more than 255 decimal places.
pub open spec fn decimal_reading(s: Seq<char>) -> Option<Decimal> {
    let body = unsigned_part(s);
    parts_reading(whole_part(body), fraction_part(body), kept_part(fraction_part(body)))
}

/// `n` zeros.
pub open spec fn zeros(n: nat) -> Seq<char> {
    Seq::new(n, |i: int| '0')
}

/// The digits of `units`, with zeros put before them until one digit more than
/// `scale` stands there.
pub open spec fn padded_digits(units: nat, scale: nat) -> Seq<char> {
    let digits = digits_of(units);
    if digits.len() > scale {
        digits
    } else {
        zeros((scale + 1 - digits.len()) as nat) + digits
    }
}

/// How a decimal is written: the digits of its whole part, a point, and its
/// `scale` decimal places, or one `0` where it has none.
pub open spec fn decimal_text(d: Decimal) -> Seq<char> {
    let padded = padded_digits(d.units as nat, d.scale as nat);
    let cut = padded.len() - d.scale;
    padded.take(cut) + seq!['.'] + if d.scale == 0 {
        seq!['0']
    } else {
        padded.skip(cut)
    }
}

/// There is one first point only.
pub proof fn lemma_point_index(s: Seq<char>, p: int)
    requires
        is_point_index(s, p),
    ensures
        point_index(s) == p,
{
    let q = point_index(s);
    assert(is_point_index(s, q));
    if q < p {
        assert(s[q] == '.');
    } else if p < q {
        assert(s[p] == '.');
    }
}

/// Trailing zeros end at one place only.
pub proof fn lemma_kept_len(s: Seq<char>, k: int)
    requires
        is_kept_len(s, k),
    ensures
        kept_len(s) == k,
{
    let q = kept_len(s);
    assert(is_kept_len(s, q));
    if q < k {
        assert(s[k - 1] == '0');
    } else if k < q {
        assert(s[q - 1] == '0');
    }
}

/// Where the parts of a decimal notation begin and end.
struct Layout {
    from: usize,
    point: usize,
    after: usize,
    end: usize,
}

/// Finds the parts of a decimal notation: the digits before the point stand in
/// `from..point`, those after it from `after` on, and those of them that count
/// end at `end`.
fn layout(chars: &Vec<char>) -> (at: Layout)
    ensures
        at.from <= at.point <= at.after <= at.end <= chars.len(),
        whole_part(unsigned_part(chars@)) == chars@.subrange(at.from as int, at.point as int),
        fraction_part(unsigned_part(chars@)) == chars@.subrange(
            at.after as int,
            chars.len() as int,
        ),
        kept_part(fraction_part(unsigned_part(chars@))) == chars@.subrange(
            at.after as int,
            at.end as int,
        ),
        forall|j: int| at.end <= j < chars.len() ==> chars@[j] == '0',
{
    let n = chars.len();
    let from: usize = if n > 0 && chars[0] == '+' {
        1
    } else {
        0
    };
    let ghost body = unsigned_part(chars@);
    assert(body == chars@.subrange(from as int, n as int));
    let mut point: usize = from;
    while point < n && chars[point] != '.'
        invariant
            from <= point <= n == chars.len(),
            forall|j: int| from <= j < point ==> chars@[j] != '.',
        decreases n - point,
    {
        point = point + 1;
    }
    proof {
        lemma_point_index(body, point - from);
    }
    let after: usize = if point < n {
        point + 1
    } else {
        n
    };
    let ghost fraction = fraction_part(body);
    assert(whole_part(body) == chars@.subrange(from as int, point as int));
    assert(fraction == chars@.subrange(after as int, n as int));
    let mut end: usize = n;
    while end > after && chars[end - 1] == '0'
        invariant
            after <= end <= n == chars.len(),
            forall|j: int| end <= j < n ==> chars@[j] == '0',
        decreases end,
    {
        end = end - 1;
    }
    proof {
        lemma_kept_len(fraction, end - after);
    }
    assert(fraction.take(end - after) == chars@.subrange(after as int, end as int));
    Layout { from, point, after, end }
}

/// A string that ends in digits is made of digits exactly when what stands
/// before them is.
proof fn lemma_prefix_digits(s: Seq<char>, k: int)
    requires
        0 <= k <= s.len(),
        forall|j: int| k <= j < s.len() ==> is_digit(#[trigger] s[j]),
    ensures
        all_digits(s) == all_digits(s.take(k)),
{
    if all_digits(s.take(k)) {
        assert forall|j: int| 0 <= j < s.len() implies is_digit(#[trigger] s[j]) by {
            if j < k {
                assert(s[j] == s.take(k)[j]);
            }
        }
    } else {
        let j = choose|j: int| 0 <= j < s.take(k).len() && !is_digit(#[trigger] s.take(k)[j]);
        assert(s[j] == s.take(k)[j]);
    }
}

impl Decimal {
    /// Reads a decimal from its notation.
    pub fn parse(text: &str) -> (d: Option<Decimal>)
        ensures
            d == decimal_reading(text@),
    {
        let chars = text_chars(text);
        let n = chars.len();
        let at = layout(&chars);
        let ghost whole = chars@.subrange(at.from as int, at.point as int);
        let ghost fraction = chars@.subrange(at.after as int, n as int);
        let ghost kept = chars@.subrange(at.after as int, at.end as int);
        assert(decimal_reading(text@) == parts_reading(whole, fraction, kept));
        if at.point - at.from + (n - at.after) == 0 {
            return None;
        }
        proof {
            assert(Seq::<char>::empty() + whole == whole);
            assert(digits_value(Seq::<char>::empty()) == 0);
            lemma_value_grows(whole, kept);
            assert(kept == fraction.take(at.end - at.after));
            lemma_prefix_digits(fraction, at.end - at.after);
        }
        let w = match accumulate(&chars, at.from, at.point, 0, Ghost(Seq::empty())) {
            Some(w) => w,
            None => {
                return None;
            },
        };
        let units = match accumulate(&chars, at.after, at.end, w, Ghost(whole)) {
            Some(units) => units,
            None => {
                return None;
            },
        };
        if at.end - at.after > 255 {
            return None;
        }
        Some(Decimal { units, scale: (at.end - at.after) as u8 })
    }

    /// Writes the decimal out.
    pub fn to_text(&self) -> (text: String)
        ensures
            text@ == decimal_text(*self),
    {
        let digits = unsigned_digits(self.units);
        let scale = self.scale as usize;
        let mut padded: Vec<char> = Vec::new();
        if digits.len() <= scale {
            let mut k: usize = digits.len();
            while k <= scale
                invariant
                    digits.len() <= k <= scale + 1,
                    scale <= u8::MAX,
                    padded@ == zeros((k - digits.len()) as nat),
                decreases scale + 1 - k,
            {
                padded.push('0');
                k = k + 1;
            }
        }
        append_range(&mut padded, &digits, 0, digits.len());
        assert(digits@.subrange(0, digits.len() as int) == digits@);
        assert(padded@ == padded_digits(self.units as nat, self.scale as nat));
        let cut = padded.len() - scale;
        let mut out: Vec<char> = Vec::new();
        append_range(&mut out, &padded, 0, cut);
        out.push('.');
        if scale == 0 {
            out.push('0');
        } else {
            append_range(&mut out, &padded, cut, padded.len());
        }
        assert(out@ == decimal_text(*self));
        text_of(&out)
    }

    /// No shorter way to write this number exists.
    pub open spec fn is_canonical(self) -> bool {
        self.scale == 0 || self.units % 10 != 0
    }

    /// Two decimals denote the same number.
    pub open spec fn same_number(self, other: Decimal) -> bool {
        self.units * pow10(other.scale as nat) == other.units * pow10(self.scale as nat)
    }

    /// The canonical form of `units / 10^scale`.
    pub fn new(units: u128, scale: u8) -> (d: Decimal)
        ensures
            d.units == reduced(units as nat, scale as nat).0,
            d.scale == reduced(units as nat, scale as nat).1,
    {
        let mut u: u128 = units;
        let mut s: u8 = scale;
        while s > 0 && u % 10 == 0
            invariant
                reduced(u as nat, s as nat) == reduced(units as nat, scale as nat),
            decreases s,
        {
            u = u / 10;
            s = s - 1;
        }
        Decimal { units: u, scale: s }
    }

    /// The quantity of the asset that `base` of its smallest units make up.
    pub fn from_base_units(base: u128) -> (d: Decimal)
        ensures
            d.units == reduced(base as nat, BASE_UNIT_SCALE as nat).0,
            d.scale == reduced(base as nat, BASE_UNIT_SCALE as nat).1,
    {
        Decimal::new(base, BASE_UNIT_SCALE)
    }

    /// The exact product of `self` and `other`, or `None` where it cannot be
    /// held.
    pub fn times(&self, other: &Decimal) -> (p: Option<Decimal>)
        ensures
            p == product(*self, *other),
    {
        match self.units.checked_mul(other.units) {
            None => None,
            Some(units) => {
                let mut u: u128 = units;
                let mut s: u16 = self.scale as u16 + other.scale as u16;
                while s > 0 && u % 10 == 0
                    invariant
                        reduced(u as nat, s as nat) == reduced(
                            self.units as nat * other.units as nat,
                            self.scale as nat + other.scale as nat,
                        ),
                    decreases s,
                {
                    u = u / 10;
                    s = s - 1;
                }
                if s <= 255 {
                    Some(Decimal { units: u, scale: s as u8 })
                } else {
                    None
                }
            },
        }
    }
}

/// Reducing changes the notation and not the number: what was dropped from the
/// units is what was given up in decimal places, and nothing more can be
/// dropped.
pub proof fn lemma_reduced(units: nat, scale: nat)
    ensures
        ({
            let r = reduced(units, scale);
            &&& r.1 <= scale
            &&& r.0 * pow10((scale - r.1) as nat) == units
            &&& r.1 == 0 || r.0 % 10 != 0
        }),
    decreases scale,
{
    if scale > 0 && units % 10 == 0 {
        lemma_reduced(units / 10, (scale - 1) as nat);
        let r = reduced(units / 10, (scale - 1) as nat);
        assert(reduced(units, scale) == r);
        let k = (scale - 1 - r.1) as nat;
        assert((scale - r.1) as nat == k + 1);
        assert(pow10(k + 1) == 10 * pow10(k));
        assert(r.0 * pow10(k) == units / 10);
        assert(r.0 * pow10(k + 1) == 10 * (r.0 * pow10(k))) by (nonlinear_arith)
            requires
                pow10(k + 1) == 10 * pow10(k),
        ;
    } else {
        assert(pow10(0) == 1);
        assert(units * 1 == units);
    }
}

/// Every string ends its trailing zeros somewhere.
proof fn lemma_kept_len_exists(s: Seq<char>)
    ensures
        is_kept_len(s, kept_len(s)),
    decreases s.len(),
{
    if s.len() > 0 && s.last() == '0' {
        let shorter = s.drop_last();
        lemma_kept_len_exists(shorter);
        let k = kept_len(shorter);
        assert(is_kept_len(s, k)) by {
            assert forall|j: int| k <= j < s.len() implies s[j] == '0' by {
                if j < shorter.len() {
                    assert(shorter[j] == s[j]);
                }
            }
            if k > 0 {
                assert(shorter[k - 1] == s[k - 1]);
            }
        }
    } else {
        assert(is_kept_len(s, s.len() as int));
    }
}

/// What is read is canonical. A string that means a decimal means it in its
/// canonical form.
pub proof fn law_reading_is_canonical(s: Seq<char>)
    ensures
        decimal_reading(s) matches Some(d) ==> d.is_canonical(),
{
    let body = unsigned_part(s);
    let whole = whole_part(body);
    let fraction = fraction_part(body);
    let kept = kept_part(fraction);
    lemma_kept_len_exists(fraction);
    if decimal_reading(s) is Some && kept.len() > 0 {
        let digits = whole + kept;
        assert(digits.last() == fraction[kept.len() - 1]);
        assert(is_digit(fraction[kept.len() - 1]));
        assert(digits.drop_last() == whole + kept.drop_last());
        assert(digits_value(digits) == 10 * digits_value(digits.drop_last()) + digit_value(
            digits.last(),
        ));
    }
}

/// Zeros denote zero.
proof fn lemma_zeros_value(n: nat)
    ensures
        digits_value(zeros(n)) == 0,
        all_digits(zeros(n)),
    decreases n,
{
    if n > 0 {
        lemma_zeros_value((n - 1) as nat);
        assert(zeros(n).drop_last() == zeros((n - 1) as nat));
    }
}

/// Zeros before a number do not change it.
proof fn lemma_leading_zeros(n: nat, s: Seq<char>)
    ensures
        digits_value(zeros(n) + s) == digits_value(s),
    decreases s.len(),
{
    if s.len() == 0 {
        lemma_zeros_value(n);
        assert(zeros(n) + s == zeros(n));
    } else {
        lemma_leading_zeros(n, s.drop_last());
        assert((zeros(n) + s).drop_last() == zeros(n) + s.drop_last());
    }
}

/// The padded digits of a number are digits, more of them than the scale, and
/// they denote the number and end as it ends.
proof fn lemma_padded_digits(units: nat, scale: nat)
    ensures
        all_digits(padded_digits(units, scale)),
        padded_digits(units, scale).len() > scale,
        digits_value(padded_digits(units, scale)) == units,
        padded_digits(units, scale).last() == digit_char(units % 10),
{
    let digits = digits_of(units);
    lemma_digits_of(units);
    lemma_last_digit(units);
    if digits.len() <= scale {
        let n = (scale + 1 - digits.len()) as nat;
        lemma_zeros_value(n);
        lemma_leading_zeros(n, digits);
    }
}

/// What is written is read back. The notation of a decimal in canonical form
/// means that decimal.
pub proof fn law_text_is_read_back(d: Decimal)
    requires
        d.is_canonical(),
    ensures
        decimal_reading(decimal_text(d)) == Some(d),
{
    let units = d.units as nat;
    let scale = d.scale as nat;
    let padded = padded_digits(units, scale);
    let cut = padded.len() - scale;
    let tail = if d.scale == 0 {
        seq!['0']
    } else {
        padded.skip(cut)
    };
    let text = padded.take(cut) + seq!['.'] + tail;
    lemma_padded_digits(units, scale);
    assert(text == decimal_text(d));
    assert(text[0] == padded[0]);
    assert(is_digit(padded[0]));
    assert(unsigned_part(text) == text);
    assert(is_point_index(text, cut)) by {
        assert forall|j: int| 0 <= j < cut implies text[j] != '.' by {
            assert(text[j] == padded[j]);
            assert(is_digit(padded[j]));
        }
        assert(text[cut] == '.');
    }
    lemma_point_index(text, cut);
    let whole = whole_part(text);
    let fraction = fraction_part(text);
    assert(whole == padded.take(cut));
    assert(fraction == tail);
    let kept_to = if d.scale == 0 {
        0int
    } else {
        scale as int
    };
    assert(is_kept_len(fraction, kept_to)) by {
        if d.scale > 0 {
            assert(fraction[scale - 1] == padded.last());
            assert(units % 10 != 0);
        }
    }
    lemma_kept_len(fraction, kept_to);
    let kept = kept_part(fraction);
    assert(whole + kept == padded) by {
        if d.scale == 0 {
            assert(kept == Seq::<char>::empty());
            assert(padded.take(cut) == padded);
        } else {
            assert(kept == fraction);
        }
        assert(whole + kept =~= padded);
    }
    assert(all_digits(whole)) by {
        assert forall|j: int| 0 <= j < whole.len() implies is_digit(#[trigger] whole[j]) by {
            assert(whole[j] == padded[j]);
        }
    }
    assert(all_digits(fraction)) by {
        assert forall|j: int| 0 <= j < fraction.len() implies is_digit(
            #[trigger] fraction[j],
        ) by {
            if d.scale > 0 {
                assert(fraction[j] == padded[cut + j]);
            }
        }
    }
}

/// The product is exact. Where two decimals have a product, it is in
/// canonical form, and it is the product of the two numbers: its units, set
/// back by the decimal places that were dropped, are the product of their
/// units, at the sum of their scales.
pub proof fn law_product_is_exact(a: Decimal, b: Decimal)
    ensures
        product(a, b) matches Some(p) ==> {
            &&& p.is_canonical()
            &&& p.scale <= a.scale + b.scale
            &&& p.units * pow10((a.scale + b.scale - p.scale) as nat) == a.units * b.units
        },
{
    let units = a.units as nat * b.units as nat;
    let scale = a.scale as nat + b.scale as nat;
    lemma_reduced(units, scale);
    if product(a, b) is Some {
        let p = product(a, b).unwrap();
        let r = reduced(units, scale);
        assert(r.0 <= units) by {
            lemma_pow10_add((scale - r.1) as nat, 0);
            assert(r.0 <= r.0 * pow10((scale - r.1) as nat)) by (nonlinear_arith)
                requires
                    pow10((scale - r.1) as nat) > 0,
            ;
        }
        assert(a.units * b.units == units);
        assert(p.units == r.0 && p.scale == r.1);
        assert((a.scale + b.scale - p.scale) as nat == (scale - r.1) as nat);
    }
}

/// Powers of ten multiply as their exponents add, and none of them is zero.
pub proof fn lemma_pow10_add(x: nat, y: nat)
    ensures
        pow10(x + y) == pow10(x) * pow10(y),
        pow10(x) > 0,
    decreases x,
{
    if x == 0 {
        assert(pow10(0) == 1);
        assert(pow10(y) == 1 * pow10(y));
    } else {
        lemma_pow10_add((x - 1) as nat, y);
        assert(pow10(x + y) == 10 * pow10((x - 1 + y) as nat));
        assert(10 * (pow10((x - 1) as nat) * pow10(y)) == (10 * pow10((x - 1) as nat)) * pow10(y))
            by (nonlinear_arith);
    }
}

/// One of two canonical decimals with the same value has no more decimal
/// places than the other.
proof fn lemma_canonical_scale(a: Decimal, b: Decimal)
    requires
        a.is_canonical(),
        b.is_canonical(),
        a.same_number(b),
    ensures
        b.scale <= a.scale,
{
    if a.scale < b.scale {
        let k = (b.scale - a.scale) as nat;
        lemma_pow10_add(a.scale as nat, k);
        lemma_pow10_add((k - 1) as nat, 1);
        assert(pow10(1) == 10) by {
            assert(pow10(1) == 10 * pow10(0));
        }
        let p = pow10(a.scale as nat);
        let q = pow10((k - 1) as nat);
        let au = a.units as int;
        let bu = b.units as int;
        assert(pow10(b.scale as nat) == p * (q * 10));
        assert(au * (p * (q * 10)) == bu * p);
        assert(bu == au * q * 10) by (nonlinear_arith)
            requires
                au * (p * (q * 10)) == bu * p,
                p > 0,
        ;
        assert(bu % 10 == 0) by (nonlinear_arith)
            requires
                bu == au * q * 10,
        ;
    }
}

/// The canonical form is unique. Two canonical decimals that are the same
/// number are equal field by field.
pub proof fn law_canonical_is_unique(a: Decimal, b: Decimal)
    requires
        a.is_canonical(),
        b.is_canonical(),
        a.same_number(b),
    ensures
        a == b,
{
    lemma_canonical_scale(a, b);
    lemma_canonical_scale(b, a);
    lemma_pow10_add(a.scale as nat, 0);
    let p = pow10(a.scale as nat);
    let au = a.units as int;
    let bu = b.units as int;
    assert(au == bu) by (nonlinear_arith)
        requires
            au * p == bu * p,
            p > 0,
    ;
}

} // verus!
