//! Locale-aware parsing of amounts into fixed-point values.
//!
//! An amount is held as a signed count of millionths of the currency unit.

use vstd::prelude::*;
use crate::text::{find_first, first_occurrence};

verus! {

/// Millionths per unit.
pub const UNIT: i128 = 1_000_000;

/// Fractional digits kept; further digits are dropped.
pub const FRACTION_DIGITS: usize = 6;

/// The longest integer part handed to the grouped-integer parser, plus one.
pub const INTEGER_TEXT_LIMIT: usize = 20;

pub open spec fn is_digit(c: char) -> bool {
    '0' <= c <= '9'
}

pub open spec fn pow10(k: nat) -> int
    decreases k,
{
    if k == 0 { 1 } else { 10 * pow10((k - 1) as nat) }
}

/// The number that a run of decimal digits spells.
pub open spec fn digits_value(s: Seq<char>) -> int
    decreases s.len(),
{
    if s.len() == 0 {
        0
    } else {
        digits_value(s.drop_last()) * 10 + (s.last() as int - '0' as int)
    }
}

/// A fractional part is a non-empty run of decimal digits.
pub open spec fn valid_fraction(s: Seq<char>) -> bool {
    s.len() > 0 && forall|i: int| 0 <= i < s.len() ==> is_digit(#[trigger] s[i])
}

/// The millionths that the fractional digits `s` stand for, digits past the
/// sixth dropped.
pub open spec fn fraction_micros(s: Seq<char>) -> int {
    if s.len() >= 6 {
        digits_value(s.take(6))
    } else {
        digits_value(s) * pow10((6 - s.len()) as nat)
    }
}

/// The amount in millionths for integer part `v` and fractional digits `f`:
/// the fraction takes the sign of the integer part.
pub open spec fn amount_value(v: int, f: Seq<char>) -> int {
    if v < 0 {
        v * 1_000_000 - fraction_micros(f)
    } else {
        v * 1_000_000 + fraction_micros(f)
    }
}

proof fn lemma_pow10_pos(k: nat)
    ensures
        pow10(k) >= 1,
    decreases k,
{
    if k > 0 {
        lemma_pow10_pos((k - 1) as nat);
    }
}

proof fn lemma_digits_bound(s: Seq<char>)
    requires
        forall|i: int| 0 <= i < s.len() ==> is_digit(#[trigger] s[i]),
    ensures
        0 <= digits_value(s) < pow10(s.len()),
    decreases s.len(),
{
    if s.len() > 0 {
        let t = s.drop_last();
        assert forall|i: int| 0 <= i < t.len() implies is_digit(#[trigger] t[i]) by {
            assert(t[i] == s[i]);
        }
        lemma_digits_bound(t);
        assert(is_digit(s[s.len() - 1]));
    }
}

/// Parses the fractional digits `frac` into millionths.
pub fn parse_fraction(frac: &str) -> (r: Option<i64>)
    ensures
        match r {
            Some(x) => valid_fraction(frac@) && x as int == fraction_micros(frac@),
            None => !valid_fraction(frac@),
        },
{
    let n = frac.unicode_len();
    if n == 0 {
        return None;
    }
    let mut i: usize = 0;
    while i < n
        invariant
            n == frac@.len(),
            i <= n,
            forall|j: int| 0 <= j < i ==> is_digit(#[trigger] frac@[j]),
        decreases n - i,
    {
        let c = frac.get_char(i);
        if !('0' <= c && c <= '9') {
            return None;
        }
        i = i + 1;
    }
    let kept: usize = if n < FRACTION_DIGITS { n } else { FRACTION_DIGITS };
    let mut value: i64 = 0;
    let mut k: usize = 0;
    while k < kept
        invariant
            n == frac@.len(),
            kept <= n,
            kept <= 6,
            k <= kept,
            valid_fraction(frac@),
            value as int == digits_value(frac@.take(k as int)),
            0 <= value < pow10(k as nat),
        decreases kept - k,
    {
        let c = frac.get_char(k);
        proof {
            assert(frac@.take(k + 1).drop_last() =~= frac@.take(k as int));
            assert(frac@.take(k + 1).last() == c);
            assert(is_digit(frac@[k as int]));
            assert(pow10(k as nat) <= 100000) by {
                reveal_with_fuel(pow10, 7);
            }
            let d = c as int - '0' as int;
            let v = value as int;
            let p = pow10(k as nat);
            assert(0 <= d <= 9);
            assert(v * 10 + d < p * 10) by (nonlinear_arith)
                requires v < p, 0 <= d <= 9;
            assert(pow10((k + 1) as nat) == 10 * p);
        }
        value = value * 10 + ((c as u32 - '0' as u32) as i64);
        k = k + 1;
    }
    assert(pow10(0) == 1);
    assert(value as int == digits_value(frac@.take(kept as int)) * pow10(0));
    let mut j: usize = kept;
    while j < FRACTION_DIGITS
        invariant
            n == frac@.len(),
            kept == (if n < 6 { n } else { 6 as usize }),
            kept <= j <= 6,
            value as int == digits_value(frac@.take(kept as int)) * pow10((j - kept) as nat),
            0 <= value < pow10(j as nat),
        decreases 6 - j,
    {
        proof {
            assert(pow10(j as nat) <= 100000) by {
                reveal_with_fuel(pow10, 7);
            }
            assert(pow10((j + 1 - kept) as nat) == 10 * pow10((j - kept) as nat));
            let a = digits_value(frac@.take(kept as int));
            let b = pow10((j - kept) as nat);
            assert(a * (10 * b) == (a * b) * 10) by (nonlinear_arith);
            assert(pow10((j + 1) as nat) == 10 * pow10(j as nat));
        }
        value = value * 10;
        j = j + 1;
    }
    proof {
        if n < 6 {
            assert(frac@.take(n as int) =~= frac@);
        }
    }
    Some(value)
}

/// The amount for an already parsed integer part and the fractional digits
/// that followed the decimal separator; `None` when the fraction is not a
/// non-empty run of digits.
pub fn amount_from_parts(int_value: i64, frac: &str) -> (r: Option<i128>)
    ensures
        match r {
            Some(a) => valid_fraction(frac@) && a as int == amount_value(int_value as int, frac@),
            None => !valid_fraction(frac@),
        },
{
    match parse_fraction(frac) {
        None => None,
        Some(f) => {
            let whole = (int_value as i128) * UNIT;
            if int_value < 0 {
                Some(whole - f as i128)
            } else {
                Some(whole + f as i128)
            }
        },
    }
}

#[verifier::external_type_specification]
#[verifier::external_body]
pub struct ExLocale(num_format::Locale);

/// `name` is a locale identifier that the number-format library knows.
pub uninterp spec fn known_locale(name: Seq<char>) -> bool;

/// The decimal separator of the locale named `name`.
pub uninterp spec fn locale_decimal(name: Seq<char>) -> Seq<char>;

/// The integer that the locale named `name` reads from `text`: digits with
/// its grouping separators, and its minus sign in front for a negative one.
pub uninterp spec fn grouped_int_of(text: Seq<char>, name: Seq<char>) -> Option<int>;

/// Relies on `num_format::Locale::from_name`: known names depend on the name alone.
#[verifier::external_body]
fn locale_from_name(name: &str) -> (r: Option<num_format::Locale>)
    ensures
        r is Some == known_locale(name@),
{
    num_format::Locale::from_name(name).ok()
}

/// Relies on `num_format::Locale::en`, the locale that `from_name("en")` gives.
#[verifier::external_body]
fn english_locale() -> (r: num_format::Locale) {
    num_format::Locale::en
}

/// The locale used for numbers, together with the identifier it was looked
/// up by.
pub struct NumberLocale {
    name: String,
    locale: num_format::Locale,
}

impl View for NumberLocale {
    type V = Seq<char>;

    closed spec fn view(&self) -> Seq<char> {
        self.name@
    }
}

/// Relies on `num_format::Locale::decimal` of the locale that
/// `NumberLocale` looked up by its identifier (the only place that builds one).
#[verifier::external_body]
fn decimal_separator(l: &NumberLocale) -> (r: String)
    ensures
        r@ == locale_decimal(l@),
{
    l.locale.decimal().to_string()
}

/// Relies on `ParseFormatted::parse_formatted::<_, i64>` with the locale that
/// `NumberLocale` looked up by its identifier. Its buffer takes fewer than
/// twenty characters, so longer text is left out.
#[verifier::external_body]
fn parse_grouped(text: &str, l: &NumberLocale) -> (r: Option<i64>)
    requires
        text@.len() < INTEGER_TEXT_LIMIT,
    ensures
        match r {
            Some(v) => grouped_int_of(text@, l@) == Some(v as int),
            None => grouped_int_of(text@, l@) is None,
        },
{
    num_format::parsing::ParseFormatted::parse_formatted::<_, i64>(&text, &l.locale).ok()
}

/// The integer text and the fractional text of `token` for decimal separator `d`:
/// split at the first separator, the fraction cut at its first space; without a
/// separator the fraction is "0".
pub open spec fn split_amount(token: Seq<char>, d: Seq<char>) -> (Seq<char>, Seq<char>) {
    let (int_text, rest) = match first_occurrence(token, d) {
        Some(i) => (token.take(i), token.skip(i + d.len())),
        None => (token, seq!['0']),
    };
    let frac = match first_occurrence(rest, seq![' ']) {
        Some(j) => rest.take(j),
        None => rest,
    };
    (int_text, frac)
}

/// The amount, in millionths, that `token` stands for in the locale named
/// `name`; `None` when it is not a well-formed number.
pub open spec fn amount_of(token: Seq<char>, name: Seq<char>) -> Option<int> {
    let (int_text, frac) = split_amount(token, locale_decimal(name));
    if int_text.len() >= INTEGER_TEXT_LIMIT {
        None
    } else {
        match grouped_int_of(int_text, name) {
            Some(v) => if valid_fraction(frac) { Some(amount_value(v, frac)) } else { None },
            None => None,
        }
    }
}

/// An amount parsed from text is below 2^84 in magnitude.
pub open spec fn amount_in_range(a: int) -> bool {
    -0x1000000000000000000000 < a < 0x1000000000000000000000
}

impl NumberLocale {
    /// Looks up the locale `name`, or "en" when none is given; `None` when the
    /// name is not known.
    pub fn new(name: Option<String>) -> (r: Option<NumberLocale>)
        ensures
            match name {
                Some(n) => match r {
                    Some(l) => known_locale(n@) && l@ == n@,
                    None => !known_locale(n@),
                },
                None => r matches Some(l) && l@ == "en"@,
            },
    {
        match name {
            Some(n) => match locale_from_name(n.as_str()) {
                Some(locale) => Some(NumberLocale { name: n, locale }),
                None => None,
            },
            None => {
                let en = String::from_str("en");
                proof {
                    reveal_strlit("en");
                }
                Some(NumberLocale { name: en, locale: english_locale() })
            },
        }
    }

    pub fn name(&self) -> (r: &String)
        ensures
            r@ == self@,
    {
        &self.name
    }

    /// The decimal separator of this locale.
    pub fn decimal(&self) -> (r: String)
        ensures
            r@ == locale_decimal(self@),
    {
        decimal_separator(self)
    }

    /// The integer that this locale reads from `text`.
    pub fn parse_integer(&self, text: &str) -> (r: Option<i64>)
        ensures
            text@.len() >= INTEGER_TEXT_LIMIT ==> r is None,
            text@.len() < INTEGER_TEXT_LIMIT ==> match r {
                Some(v) => grouped_int_of(text@, self@) == Some(v as int),
                None => grouped_int_of(text@, self@) is None,
            },
    {
        if text.unicode_len() >= INTEGER_TEXT_LIMIT {
            None
        } else {
            parse_grouped(text, self)
        }
    }

    /// Parses an amount such as "1.234,56" into millionths.
    pub fn parse_amount(&self, token: &str) -> (r: Option<i128>)
        ensures
            match r {
                Some(a) => amount_of(token@, self@) == Some(a as int) && amount_in_range(a as int),
                None => amount_of(token@, self@) is None,
            },
    {
        let d = self.decimal();
        let n = token.unicode_len();
        let (int_text, rest): (&str, &str) = match find_first(token, d.as_str()) {
            Some(i) => {
                let rest_start = i + d.unicode_len();
                let parts = (token.substring_char(0, i), token.substring_char(rest_start, n));
                assert(parts.1@ =~= token@.skip(rest_start as int));
                assert(parts.0@ =~= token@.take(i as int));
                parts
            },
            None => {
                proof {
                    reveal_strlit("0");
                    assert("0"@ =~= seq!['0']);
                }
                (token, "0")
            },
        };
        assert(int_text@ == split_amount(token@, d@).0);
        assert(rest@ == (match first_occurrence(token@, d@) {
            Some(i) => token@.skip(i + d@.len()),
            None => seq!['0'],
        }));
        let m = rest.unicode_len();
        let frac: &str = match find_first(rest, " ") {
            Some(j) => {
                let f = rest.substring_char(0, j);
                assert(f@ =~= rest@.take(j as int));
                f
            },
            None => rest,
        };
        proof {
            reveal_strlit(" ");
            assert(" "@ =~= seq![' ']);
        }
        assert(frac@ == split_amount(token@, d@).1);
        match self.parse_integer(int_text) {
            None => None,
            Some(v) => {
                let r = amount_from_parts(v, frac);
                proof {
                    if let Some(a) = r {
                        lemma_amount_range(v as int, frac@);
                    }
                }
                r
            },
        }
    }
}

proof fn lemma_pow10_add(a: nat, b: nat)
    ensures
        pow10(a + b) == pow10(a) * pow10(b),
    decreases a,
{
    if a > 0 {
        lemma_pow10_add((a - 1) as nat, b);
        assert(pow10(a + b) == 10 * pow10((a - 1 + b) as nat));
        assert(10 * (pow10((a - 1) as nat) * pow10(b)) == (10 * pow10((a - 1) as nat)) * pow10(b))
            by (nonlinear_arith);
    }
}

proof fn lemma_amount_range(v: int, f: Seq<char>)
    requires
        i64::MIN <= v <= i64::MAX,
        valid_fraction(f),
    ensures
        amount_in_range(amount_value(v, f)),
{
    let g = if f.len() >= 6 { f.take(6) } else { f };
    assert forall|i: int| 0 <= i < g.len() implies is_digit(#[trigger] g[i]) by {
        assert(g[i] == f[i]);
    }
    lemma_digits_bound(g);
    reveal_with_fuel(pow10, 7);
    lemma_pow10_pos((6 - f.len()) as nat);
    if f.len() < 6 {
        let p = pow10((6 - f.len()) as nat);
        lemma_pow10_add(g.len(), (6 - f.len()) as nat);
        let x = digits_value(g);
        assert(x * p < pow10(g.len()) * p) by (nonlinear_arith)
            requires x < pow10(g.len()), p >= 1;
    }
    assert(0 <= fraction_micros(f) < 1_000_000);
}

} // verus!
