//! Text helpers: conversion between integers, booleans and their textual form.

use vstd::prelude::*;

verus! {

/// The decimal digit character of `d` (`0 <= d < 10`).
pub open spec fn digit_char(d: int) -> char {
    (d + 48) as char
}

/// Whether `c` is an ASCII decimal digit.
pub open spec fn is_digit(c: char) -> bool {
    '0' <= c && c <= '9'
}

/// The value of the ASCII decimal digit `c`.
pub open spec fn digit_value(c: char) -> int {
    (c as int) - 48
}

/// Decimal digits of a natural number, most significant first, without leading zeros.
pub open spec fn nat_digits(n: nat) -> Seq<char>
    decreases n,
{
    if n < 10 {
        seq![digit_char(n as int)]
    } else {
        nat_digits(n / 10).push(digit_char((n % 10) as int))
    }
}

/// Decimal text of an integer, with a leading `-` for negative values.
pub open spec fn int_text(i: int) -> Seq<char> {
    if i < 0 {
        seq!['-'] + nat_digits((-i) as nat)
    } else {
        nat_digits(i as nat)
    }
}

} // verus!

verus! {

/// Appends a character to a string.
///
/// Trusted: calls `String::push`, which appends `c` at the end of the string.
#[verifier::external_body]
pub(crate) fn push_char(s: &mut String, c: char)
    ensures
        final(s)@ == old(s)@.push(c),
{
    s.push(c);
}

/// Collects the characters of a string slice.
///
/// Trusted: calls `str::chars` and collects the iterator, which yields the
/// characters of the string in order.
#[verifier::external_body]
pub(crate) fn chars_of(s: &str) -> (r: Vec<char>)
    ensures
        r@ == s@,
{
    s.chars().collect()
}

/// Builds a string from a sequence of characters.
pub fn string_from_chars(chars: &[char]) -> (r: String)
    ensures
        r@ == chars@,
{
    let mut s = String::new();
    let mut i: usize = 0;
    while i < chars.len()
        invariant
            i <= chars@.len(),
            s@ == chars@.subrange(0, i as int),
        decreases chars@.len() - i,
    {
        push_char(&mut s, chars[i]);
        i = i + 1;
        assert(s@ =~= chars@.subrange(0, i as int));
    }
    assert(chars@.subrange(0, chars@.len() as int) =~= chars@);
    s
}

proof fn lemma_digits_len(n: nat)
    ensures
        nat_digits(n).len() >= 1,
    decreases n,
{
    if n >= 10 {
        lemma_digits_len(n / 10);
    }
}

/// Decimal digits of `n`, most significant first.
fn digits_u64(n: u64) -> (r: Vec<char>)
    ensures
        r@ == nat_digits(n as nat),
    decreases n,
{
    if n < 10 {
        let c = ((n as u8) + 48u8) as char;
        let mut v: Vec<char> = Vec::new();
        v.push(c);
        assert(v@ =~= seq![digit_char(n as int)]);
        v
    } else {
        let mut v = digits_u64(n / 10);
        let d = ((n % 10) as u8 + 48u8) as char;
        v.push(d);
        v
    }
}

/// Decimal text of an integer, as `isize::to_string` gives it.
pub fn format_isize(i: isize) -> (r: String)
    ensures
        r@ == int_text(i as int),
{
    let mut out: Vec<char> = Vec::new();
    let magnitude: u64 = if i < 0 {
        out.push('-');
        ((-(i as i128)) as u64)
    } else {
        i as u64
    };
    let digits = digits_u64(magnitude);
    let mut k: usize = 0;
    let ghost start = out@;
    while k < digits.len()
        invariant
            k <= digits@.len(),
            out@ == start + digits@.subrange(0, k as int),
        decreases digits@.len() - k,
    {
        out.push(digits[k]);
        k = k + 1;
        assert(out@ =~= start + digits@.subrange(0, k as int));
    }
    assert(digits@.subrange(0, digits@.len() as int) =~= digits@);
    proof {
        if i < 0 {
            assert(start =~= seq!['-']);
        } else {
            assert(start =~= Seq::<char>::empty());
        }
    }
    string_from_chars(out.as_slice())
}

} // verus!

verus! {

/// Why a string could not be parsed as an integer, as `core::num::IntErrorKind` tells it.
#[derive(Debug, Clone, Copy, PartialEq, Eq)]
pub enum IntErrorKind {
    /// The string is empty.
    Empty,
    /// The string holds a character that is not a digit where a digit is expected.
    InvalidDigit,
    /// The value is larger than `isize::MAX`.
    PosOverflow,
    /// The value is smaller than `isize::MIN`.
    NegOverflow,
}

impl IntErrorKind {
    /// The message that `ParseIntError` displays for this kind.
    pub fn message(&self) -> (r: &'static str)
        ensures
            r@ == int_error_message(*self),
    {
        match self {
            IntErrorKind::Empty => "cannot parse integer from empty string",
            IntErrorKind::InvalidDigit => "invalid digit found in string",
            IntErrorKind::PosOverflow => "number too large to fit in target type",
            IntErrorKind::NegOverflow => "number too small to fit in target type",
        }
    }
}

/// The message of each integer parse error kind.
pub open spec fn int_error_message(k: IntErrorKind) -> Seq<char> {
    match k {
        IntErrorKind::Empty => "cannot parse integer from empty string"@,
        IntErrorKind::InvalidDigit => "invalid digit found in string"@,
        IntErrorKind::PosOverflow => "number too large to fit in target type"@,
        IntErrorKind::NegOverflow => "number too small to fit in target type"@,
    }
}

/// Whether `i` fits in an `isize`.
pub open spec fn in_isize(i: int) -> bool {
    isize::MIN <= i <= isize::MAX
}

/// Accumulates the digits of `s` onto `acc`, left to right, failing on the first
/// non-digit or on the first step that leaves the range of `isize`.
pub open spec fn scan_digits(neg: bool, acc: int, s: Seq<char>) -> Result<int, IntErrorKind>
    decreases s.len(),
{
    if s.len() == 0 {
        Ok(acc)
    } else if !is_digit(s[0]) {
        Err(IntErrorKind::InvalidDigit)
    } else {
        let next = if neg {
            acc * 10 - digit_value(s[0])
        } else {
            acc * 10 + digit_value(s[0])
        };
        if !in_isize(next) {
            Err(if neg { IntErrorKind::NegOverflow } else { IntErrorKind::PosOverflow })
        } else {
            scan_digits(neg, next, s.drop_first())
        }
    }
}

/// What `isize::from_str` gives for a string: an optional sign followed by decimal digits.
pub open spec fn parse_int_spec(s: Seq<char>) -> Result<int, IntErrorKind> {
    if s.len() == 0 {
        Err(IntErrorKind::Empty)
    } else if s[0] == '+' || s[0] == '-' {
        if s.len() == 1 {
            Err(IntErrorKind::InvalidDigit)
        } else {
            scan_digits(s[0] == '-', 0, s.drop_first())
        }
    } else {
        scan_digits(false, 0, s)
    }
}

/// What `bool::from_str` gives for a string: only `true` and `false` are accepted.
pub open spec fn parse_bool_spec(s: Seq<char>) -> Option<bool> {
    if s == "true"@ {
        Some(true)
    } else if s == "false"@ {
        Some(false)
    } else {
        None
    }
}

/// `s` with its leading `0`s removed, down to its last character: `"007"` gives `"7"`,
/// `"000"` gives `"0"`.
pub open spec fn trim_leading_zeros(s: Seq<char>) -> Seq<char>
    decreases s.len(),
{
    if s.len() > 1 && s[0] == '0' {
        trim_leading_zeros(s.drop_first())
    } else {
        s
    }
}

/// Reading digits without a minus sign never gives a negative number.
proof fn lemma_scan_nonneg(acc: int, s: Seq<char>)
    requires
        acc >= 0,
    ensures
        scan_digits(false, acc, s) matches Ok(n) ==> n >= 0,
    decreases s.len(),
{
    if s.len() > 0 && is_digit(s[0]) {
        lemma_scan_nonneg(acc * 10 + digit_value(s[0]), s.drop_first());
    }
}

/// An integer written without a minus sign is not negative.
pub proof fn lemma_parse_int_unsigned(s: Seq<char>)
    requires
        !(s.len() > 0 && s[0] == '-'),
    ensures
        parse_int_spec(s) matches Ok(n) ==> n >= 0,
{
    if s.len() > 0 {
        if s[0] == '+' {
            lemma_scan_nonneg(0, s.drop_first());
        } else {
            lemma_scan_nonneg(0, s);
        }
    }
}

/// Parses a decimal integer from characters, as `isize::from_str` does.
pub fn parse_isize_chars(s: &[char]) -> (r: Result<isize, IntErrorKind>)
    ensures
        match r {
            Ok(v) => parse_int_spec(s@) == Ok::<int, IntErrorKind>(v as int),
            Err(k) => parse_int_spec(s@) == Err::<int, IntErrorKind>(k),
        },
{
    if s.len() == 0 {
        return Err(IntErrorKind::Empty);
    }
    let mut start: usize = 0;
    let mut neg = false;
    if s[0] == '+' || s[0] == '-' {
        if s.len() == 1 {
            return Err(IntErrorKind::InvalidDigit);
        }
        neg = s[0] == '-';
        start = 1;
    }
    let ghost body = s@.subrange(start as int, s@.len() as int);
    assert(start == 1 ==> body =~= s@.drop_first());
    assert(start == 0 ==> body =~= s@);
    assert(parse_int_spec(s@) == scan_digits(neg, 0, body));
    let mut acc: isize = 0;
    let mut i: usize = start;
    while i < s.len()
        invariant
            start <= i <= s@.len(),
            body == s@.subrange(start as int, s@.len() as int),
            parse_int_spec(s@) == scan_digits(neg, 0, body),
            scan_digits(neg, 0, body) == scan_digits(neg, acc as int, s@.subrange(i as int, s@.len() as int)),
        decreases s@.len() - i,
    {
        let c = s[i];
        let ghost rest = s@.subrange(i as int, s@.len() as int);
        assert(rest[0] == c);
        assert(rest.drop_first() =~= s@.subrange(i + 1, s@.len() as int));
        if !('0' <= c && c <= '9') {
            return Err(IntErrorKind::InvalidDigit);
        }
        let d: i128 = (c as u32 - 48) as i128;
        let next: i128 = if neg {
            (acc as i128) * 10 - d
        } else {
            (acc as i128) * 10 + d
        };
        if next < isize::MIN as i128 || next > isize::MAX as i128 {
            return Err(if neg { IntErrorKind::NegOverflow } else { IntErrorKind::PosOverflow });
        }
        acc = next as isize;
        i = i + 1;
    }
    assert(s@.subrange(i as int, s@.len() as int) =~= Seq::<char>::empty());
    Ok(acc)
}

/// Parses a boolean from a string, as `bool::from_str` does.
pub fn parse_bool_chars(s: &[char]) -> (r: Option<bool>)
    ensures
        r == parse_bool_spec(s@),
{
    proof {
        reveal_strlit("true");
        reveal_strlit("false");
    }
    if s.len() == 4 && s[0] == 't' && s[1] == 'r' && s[2] == 'u' && s[3] == 'e' {
        assert(s@ =~= "true"@);
        Some(true)
    } else if s.len() == 5 && s[0] == 'f' && s[1] == 'a' && s[2] == 'l' && s[3] == 's' && s[4] == 'e' {
        assert(s@ =~= "false"@);
        Some(false)
    } else {
        proof {
            if s@ == "true"@ {
                assert(s@.len() == 4);
                assert(s@[0] == "true"@[0]);
            }
            if s@ == "false"@ {
                assert(s@.len() == 5);
            }
        }
        None
    }
}

/// Removes the leading `0` characters, keeping the last character of the text.
pub fn trim_zeros_chars(s: &[char]) -> (r: Vec<char>)
    ensures
        r@ == trim_leading_zeros(s@),
{
    let mut i: usize = 0;
    assert(s@.subrange(0, s@.len() as int) =~= s@);
    while s.len() > 0 && i < s.len() - 1 && s[i] == '0'
        invariant
            i <= s@.len(),
            trim_leading_zeros(s@) == trim_leading_zeros(s@.subrange(i as int, s@.len() as int)),
        decreases s@.len() - i,
    {
        assert(s@.subrange(i as int, s@.len() as int).drop_first() =~= s@.subrange(i + 1, s@.len() as int));
        i = i + 1;
    }
    let mut out: Vec<char> = Vec::new();
    let mut k: usize = i;
    while k < s.len()
        invariant
            i <= k <= s@.len(),
            out@ == s@.subrange(i as int, k as int),
        decreases s@.len() - k,
    {
        out.push(s[k]);
        k = k + 1;
        assert(out@ =~= s@.subrange(i as int, k as int));
    }
    out
}

} // verus!

verus! {

proof fn lemma_scan_append(neg: bool, acc: int, s: Seq<char>, t: Seq<char>)
    requires
        scan_digits(neg, acc, s) is Ok,
    ensures
        scan_digits(neg, acc, s + t) == scan_digits(neg, scan_digits(neg, acc, s)->Ok_0, t),
    decreases s.len(),
{
    if s.len() == 0 {
        assert(s + t =~= t);
    } else {
        let next = if neg {
            acc * 10 - digit_value(s[0])
        } else {
            acc * 10 + digit_value(s[0])
        };
        assert((s + t)[0] == s[0]);
        assert((s + t).drop_first() =~= s.drop_first() + t);
        lemma_scan_append(neg, next, s.drop_first(), t);
    }
}

proof fn lemma_digits_are_digits(n: nat)
    ensures
        forall|k: int| 0 <= k < nat_digits(n).len() ==> is_digit(#[trigger] nat_digits(n)[k]),
        nat_digits(n).len() >= 1,
    decreases n,
{
    if n >= 10 {
        lemma_digits_are_digits(n / 10);
    }
}

proof fn lemma_scan_digits_value(neg: bool, n: nat)
    requires
        neg ==> in_isize(-(n as int)),
        !neg ==> in_isize(n as int),
    ensures
        scan_digits(neg, 0, nat_digits(n)) == Ok::<int, IntErrorKind>(if neg { -(n as int) } else { n as int }),
    decreases n,
{
    let d = digit_char((n % 10) as int);
    assert(digit_value(d) == n % 10);
    if n < 10 {
        let s = nat_digits(n);
        assert(s.drop_first() =~= Seq::<char>::empty());
        assert(s[0] == d);
        assert(scan_digits(neg, 0, s) == scan_digits(neg, if neg { -(n as int) } else { n as int }, s.drop_first()));
    } else {
        lemma_scan_digits_value(neg, n / 10);
        lemma_scan_append(neg, 0, nat_digits(n / 10), seq![d]);
        assert(nat_digits(n) =~= nat_digits(n / 10) + seq![d]);
        let prev: int = if neg { -((n / 10) as int) } else { (n / 10) as int };
        assert(seq![d].drop_first() =~= Seq::<char>::empty());
        assert(seq![d][0] == d);
        assert(n == (n / 10) * 10 + n % 10);
        let next = if neg { prev * 10 - digit_value(d) } else { prev * 10 + digit_value(d) };
        assert(next == if neg { -(n as int) } else { n as int });
        assert(scan_digits(neg, prev, seq![d]) == scan_digits(neg, next, seq![d].drop_first()));
    }
}

/// Printing an integer and parsing the text back gives the integer again.
pub proof fn law_parse_format_roundtrip(i: isize)
    ensures
        parse_int_spec(int_text(i as int)) == Ok::<int, IntErrorKind>(i as int),
{
    if i < 0 {
        let m = (-(i as int)) as nat;
        lemma_scan_digits_value(true, m);
        let s = int_text(i as int);
        lemma_digits_are_digits(m);
        assert(s.drop_first() =~= nat_digits(m));
        assert(s[0] == '-');
    } else {
        lemma_scan_digits_value(false, i as nat);
        lemma_digits_are_digits(i as nat);
        assert(is_digit(nat_digits(i as nat)[0]));
    }
}

/// Each way an integer fails to parse has the message `core::num::ParseIntError` displays
/// for it.
pub proof fn law_int_error_messages()
    ensures
        int_error_message(IntErrorKind::Empty) == "cannot parse integer from empty string"@,
        int_error_message(IntErrorKind::InvalidDigit) == "invalid digit found in string"@,
        int_error_message(IntErrorKind::PosOverflow) == "number too large to fit in target type"@,
        int_error_message(IntErrorKind::NegOverflow) == "number too small to fit in target type"@,
        parse_int_spec(Seq::empty()) == Err::<int, IntErrorKind>(IntErrorKind::Empty),
        parse_int_spec(seq!['-']) == Err::<int, IntErrorKind>(IntErrorKind::InvalidDigit),
        parse_int_spec(seq!['+']) == Err::<int, IntErrorKind>(IntErrorKind::InvalidDigit),
{
}

/// The first digit of a positive number is not zero.
proof fn lemma_first_digit(n: nat)
    ensures
        n > 0 ==> nat_digits(n)[0] != '0',
        n == 0 ==> nat_digits(n) == seq!['0'],
    decreases n,
{
    if n >= 10 {
        lemma_first_digit(n / 10);
        lemma_digits_are_digits(n / 10);
        assert(nat_digits(n)[0] == nat_digits(n / 10)[0]);
    }
}

/// A number written with a leading `+` reads as the number, as `isize::from_str` accepts.
pub proof fn law_parse_plus_sign(i: isize)
    requires
        i >= 0,
    ensures
        parse_int_spec(seq!['+'] + int_text(i as int)) == Ok::<int, IntErrorKind>(i as int),
{
    let s = seq!['+'] + int_text(i as int);
    lemma_scan_digits_value(false, i as nat);
    lemma_digits_are_digits(i as nat);
    assert(s.drop_first() =~= nat_digits(i as nat));
    assert(s[0] == '+');
}

/// Leading zeros before a number are dropped: any number of `0`s before the digits of a
/// number that is not negative leaves the digits, and a text of zeros alone leaves `0`.
pub proof fn law_trim_leading_zeros(k: nat, n: nat)
    ensures
        trim_leading_zeros(Seq::new(k, |j: int| '0') + nat_digits(n)) == nat_digits(n),
        trim_leading_zeros(Seq::new(k + 1, |j: int| '0')) == seq!['0'],
    decreases k,
{
    lemma_first_digit(n);
    lemma_digits_are_digits(n);
    let z = Seq::new(k, |j: int| '0');
    if k == 0 {
        assert(z + nat_digits(n) =~= nat_digits(n));
        if n > 0 || nat_digits(n).len() > 1 {
        }
        assert(Seq::new(1, |j: int| '0') =~= seq!['0']);
    } else {
        law_trim_leading_zeros((k - 1) as nat, n);
        let s = z + nat_digits(n);
        assert(s[0] == '0');
        assert(s.drop_first() =~= Seq::new((k - 1) as nat, |j: int| '0') + nat_digits(n));
        let zz = Seq::new(k + 1, |j: int| '0');
        assert(zz.drop_first() =~= Seq::new(k, |j: int| '0'));
    }
}

} // verus!

verus! {

/// Whether two character sequences are equal.
pub fn chars_eq(a: &[char], b: &[char]) -> (r: bool)
    ensures
        r == (a@ == b@),
{
    if a.len() != b.len() {
        return false;
    }
    let mut i: usize = 0;
    while i < a.len()
        invariant
            a@.len() == b@.len(),
            i <= a@.len(),
            forall|k: int| 0 <= k < i ==> a@[k] == b@[k],
        decreases a@.len() - i,
    {
        if a[i] != b[i] {
            return false;
        }
        i = i + 1;
    }
    assert(a@ =~= b@);
    true
}

/// Whether a character sequence spells a given string.
pub fn chars_eq_str(a: &[char], b: &str) -> (r: bool)
    ensures
        r == (a@ == b@),
{
    let bc = chars_of(b);
    chars_eq(a, bc.as_slice())
}

/// Appends the characters of `s` to `out`.
pub fn push_all(out: &mut Vec<char>, s: &[char])
    ensures
        final(out)@ == old(out)@ + s@,
{
    let ghost start = out@;
    let mut i: usize = 0;
    while i < s.len()
        invariant
            i <= s@.len(),
            out@ == start + s@.subrange(0, i as int),
        decreases s@.len() - i,
    {
        out.push(s[i]);
        i = i + 1;
        assert(out@ =~= start + s@.subrange(0, i as int));
    }
    assert(s@.subrange(0, s@.len() as int) =~= s@);
}

} // verus!

verus! {

/// What `char::to_uppercase` yields for a character.
pub uninterp spec fn char_upper(c: char) -> Seq<char>;

/// What `char::to_lowercase` yields for a character.
pub uninterp spec fn char_lower(c: char) -> Seq<char>;

/// What `str::to_uppercase` gives for a string.
pub uninterp spec fn str_upper(s: Seq<char>) -> Seq<char>;

/// What `str::to_lowercase` gives for a string.
pub uninterp spec fn str_lower(s: Seq<char>) -> Seq<char>;

/// What `char::is_uppercase` gives for a character.
pub uninterp spec fn char_is_upper(c: char) -> bool;

/// The characters `char::to_uppercase` yields for `c`.
///
/// Trusted: calls `char::to_uppercase` and collects what it yields; the result is
/// claimed to be a function of `c` alone (the Unicode tables of std).
#[verifier::external_body]
pub(crate) fn to_upper_chars(c: char) -> (r: Vec<char>)
    ensures
        r@ == char_upper(c),
{
    c.to_uppercase().collect()
}

/// The characters `char::to_lowercase` yields for `c`.
///
/// Trusted: calls `char::to_lowercase` and collects what it yields; the result is
/// claimed to be a function of `c` alone (the Unicode tables of std).
#[verifier::external_body]
pub(crate) fn to_lower_chars(c: char) -> (r: Vec<char>)
    ensures
        r@ == char_lower(c),
{
    c.to_lowercase().collect()
}

/// The uppercase form of a string.
///
/// Trusted: calls `str::to_uppercase`; the result is claimed to be a function of the
/// characters of `s` alone.
#[verifier::external_body]
pub(crate) fn string_to_upper(s: &str) -> (r: String)
    ensures
        r@ == str_upper(s@),
{
    s.to_uppercase()
}

/// The lowercase form of a string.
///
/// Trusted: calls `str::to_lowercase`; the result is claimed to be a function of the
/// characters of `s` alone.
#[verifier::external_body]
pub(crate) fn string_to_lower(s: &str) -> (r: String)
    ensures
        r@ == str_lower(s@),
{
    s.to_lowercase()
}

/// Whether a character is uppercase.
///
/// Trusted: calls `char::is_uppercase`, a function of `c` alone.
#[verifier::external_body]
pub(crate) fn is_upper(c: char) -> (r: bool)
    ensures
        r == char_is_upper(c),
{
    c.is_uppercase()
}

} // verus!
