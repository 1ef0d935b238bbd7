//! Verified helpers on strings and their UTF-8 bytes.

use vstd::prelude::*;
use vstd::string::*;
use vstd::utf8::*;

verus! {

/// The characters that a sequence of ASCII bytes spells.
pub open spec fn ascii_text(bytes: Seq<u8>) -> Seq<char> {
    Seq::new(bytes.len(), |i: int| bytes[i] as char)
}

/// Whether every byte is below 128.
pub open spec fn is_ascii_bytes(bytes: Seq<u8>) -> bool {
    forall|i: int| 0 <= i < bytes.len() ==> #[trigger] bytes[i] < 128
}

/// ASCII bytes are valid UTF-8 and decode to the characters with the same
/// code points.
pub proof fn lemma_ascii_bytes_utf8(bytes: Seq<u8>)
    requires
        is_ascii_bytes(bytes),
    ensures
        is_ascii_chars(ascii_text(bytes)),
        encode_utf8(ascii_text(bytes)) == bytes,
        valid_utf8(bytes),
        decode_utf8(bytes) == ascii_text(bytes),
{
    let chars = ascii_text(bytes);
    assert forall|i: int| 0 <= i < chars.len() implies '\0' <= #[trigger] chars[i] <= '\u{7f}' by {
        assert(bytes[i] < 128);
    }
    is_ascii_chars_encode_utf8(chars);
    assert forall|i: int| 0 <= i < bytes.len() implies encode_utf8(chars)[i] == bytes[i] by {
        assert(bytes[i] < 128);
        assert(chars[i] as u8 == bytes[i]);
    }
    assert(encode_utf8(chars) =~= bytes);
    encode_utf8_valid_utf8(chars);
    encode_utf8_decode_utf8(chars);
}

/// An ASCII string has one byte per character, each the character's code.
pub proof fn lemma_ascii_text_bytes(s: Seq<char>)
    requires
        is_ascii_chars(s),
    ensures
        encode_utf8(s).len() == s.len(),
        is_ascii_bytes(encode_utf8(s)),
        ascii_text(encode_utf8(s)) == s,
        forall|i: int| 0 <= i < s.len() ==> #[trigger] encode_utf8(s)[i] == s[i] as u8,
{
    is_ascii_chars_encode_utf8(s);
    let b = encode_utf8(s);
    assert forall|i: int| 0 <= i < b.len() implies #[trigger] b[i] < 128 by {
        assert(s[i] as u8 == b[i]);
    }
    assert forall|i: int| 0 <= i < s.len() implies ascii_text(b)[i] == s[i] by {
        assert(s[i] as u8 == b[i]);
        assert('\0' <= s[i] <= '\u{7f}');
    }
    assert(ascii_text(b) =~= s);
}

/// Two strings are equal exactly when their UTF-8 bytes are.
pub proof fn lemma_utf8_injective(a: Seq<char>, b: Seq<char>)
    ensures
        (encode_utf8(a) == encode_utf8(b)) == (a == b),
{
    encode_utf8_decode_utf8(a);
    encode_utf8_decode_utf8(b);
}

/// Compares two strings.
pub fn str_eq(a: &str, b: &str) -> (same: bool)
    ensures
        same == (a@ == b@),
{
    let x = a.as_bytes();
    let y = b.as_bytes();
    proof {
        lemma_utf8_injective(a@, b@);
    }
    if x.len() != y.len() {
        return false;
    }
    let mut i: usize = 0;
    while i < x.len()
        invariant
            x@ == encode_utf8(a@),
            y@ == encode_utf8(b@),
            (x@ == y@) == (a@ == b@),
            x@.len() == y@.len(),
            i <= x@.len(),
            forall|j: int| 0 <= j < i ==> x@[j] == y@[j],
        decreases x@.len() - i,
    {
        if x[i] != y[i] {
            return false;
        }
        i += 1;
    }
    assert(x@ =~= y@);
    true
}

/// `String::from_utf8`: gives the string exactly when the bytes are valid
/// UTF-8, and then the string is the one those bytes encode.
#[verifier::external_body]
pub(crate) fn string_from_utf8(bytes: Vec<u8>) -> (text: Option<String>)
    ensures
        text is Some <==> valid_utf8(bytes@),
        text is Some ==> text->0@ == decode_utf8(bytes@),
{
    String::from_utf8(bytes).ok()
}

/// Builds the string that ASCII bytes spell.
pub fn string_from_ascii(bytes: Vec<u8>) -> (text: String)
    requires
        is_ascii_bytes(bytes@),
    ensures
        text@ == ascii_text(bytes@),
{
    proof {
        lemma_ascii_bytes_utf8(bytes@);
    }
    match string_from_utf8(bytes) {
        Some(text) => text,
        None => String::new(),
    }
}


/// The characters of a string, one by one.
pub fn str_chars(s: &str) -> (chars: Vec<char>)
    ensures
        chars@ == s@,
{
    let mut chars: Vec<char> = Vec::new();
    for c in it: s.chars()
        invariant
            it.seq() == s@,
            chars@ == s@.subrange(0, it.index() as int),
    {
        chars.push(c);
        assert(chars@ =~= s@.subrange(0, it.index() + 1));
    }
    assert(chars@ =~= s@);
    chars
}

/// The character of a decimal digit.
pub open spec fn digit_char(digit: int) -> char {
    (48 + digit) as u8 as char
}

/// The decimal digits of a natural number, without leading zeros.
pub open spec fn decimal_digits(n: nat) -> Seq<char>
    decreases n,
{
    if n < 10 {
        seq![digit_char(n as int)]
    } else {
        decimal_digits(n / 10).push(digit_char((n % 10) as int))
    }
}

/// The canonical decimal text of an integer: a minus sign for negative
/// numbers, then the digits.
pub open spec fn decimal_text(n: int) -> Seq<char> {
    if n < 0 {
        seq!['-'] + decimal_digits((-n) as nat)
    } else {
        decimal_digits(n as nat)
    }
}

/// Decimal text is ASCII and never empty.
pub proof fn lemma_decimal_digits_ascii(n: nat)
    ensures
        decimal_digits(n).len() >= 1,
        is_ascii_chars(decimal_digits(n)),
        forall|i: int| 0 <= i < decimal_digits(n).len() ==> is_digit(#[trigger] decimal_digits(n)[i]),
    decreases n,
{
    if n >= 10 {
        lemma_decimal_digits_ascii(n / 10);
    }
}

/// Renders an unsigned number in decimal.
pub fn u64_to_string(n: u64) -> (text: String)
    ensures
        text@ == decimal_text(n as int),
{
    let mut reversed: Vec<u8> = Vec::new();
    let mut rest: u64 = n;
    while rest >= 10
        invariant
            is_ascii_bytes(reversed@),
            decimal_digits(n as nat) == decimal_digits(rest as nat) + ascii_text(
                reversed@.reverse(),
            ),
        decreases rest,
    {
        let digit: u8 = (rest % 10) as u8;
        let ghost before = reversed@;
        reversed.push(48 + digit);
        proof {
            assert(reversed@.reverse() =~= seq![(48 + digit) as u8] + before.reverse());
            assert(ascii_text(reversed@.reverse()) =~= seq![digit_char(digit as int)] + ascii_text(
                before.reverse(),
            ));
            assert(decimal_digits(rest as nat) == decimal_digits((rest / 10) as nat).push(
                digit_char(digit as int),
            ));
            assert(decimal_digits((rest / 10) as nat).push(digit_char(digit as int)) + ascii_text(
                before.reverse(),
            ) =~= decimal_digits((rest / 10) as nat) + ascii_text(reversed@.reverse()));
        }
        rest = rest / 10;
    }
    let ghost before = reversed@;
    reversed.push(48 + (rest as u8));
    proof {
        assert(reversed@.reverse() =~= seq![(48 + rest) as u8] + before.reverse());
        assert(ascii_text(reversed@.reverse()) =~= seq![digit_char(rest as int)] + ascii_text(
            before.reverse(),
        ));
    }
    let mut digits: Vec<u8> = Vec::new();
    let mut i: usize = reversed.len();
    while i > 0
        invariant
            i <= reversed.len(),
            is_ascii_bytes(reversed@),
            digits@ == reversed@.reverse().subrange(0, reversed.len() - i),
        decreases i,
    {
        i -= 1;
        digits.push(reversed[i]);
        assert(digits@ =~= reversed@.reverse().subrange(0, reversed.len() - i));
    }
    assert(digits@ =~= reversed@.reverse());
    assert(is_ascii_bytes(digits@)) by {
        assert forall|j: int| 0 <= j < digits@.len() implies #[trigger] digits@[j] < 128 by {
            assert(digits@[j] == reversed@[reversed@.len() - 1 - j]);
        }
    }
    string_from_ascii(digits)
}

/// Renders a signed number in decimal.
pub fn i64_to_string(n: i64) -> (text: String)
    ensures
        text@ == decimal_text(n as int),
{
    if n >= 0 {
        u64_to_string(n as u64)
    } else {
        let magnitude: u64 = ((-(n + 1)) as u64) + 1;
        let digits = u64_to_string(magnitude);
        proof {
            reveal_strlit("-");
            assert("-"@ =~= seq!['-']);
        }
        "-".to_owned().concat(digits.as_str())
    }
}

/// Why a text is not a number of the wanted type.
#[derive(Clone, Copy, Debug, PartialEq, Eq, Structural)]
pub enum IntErrorKind {
    /// The text is empty.
    Empty,
    /// The text holds a character that is no digit, or only a sign.
    InvalidDigit,
    /// The number is above the largest value of the type.
    PosOverflow,
    /// The number is below the smallest value of the type.
    NegOverflow,
}

impl IntErrorKind {
    /// The message of each kind.
    pub open spec fn message(self) -> Seq<char> {
        match self {
            Self::Empty => "cannot parse integer from empty string"@,
            Self::InvalidDigit => "invalid digit found in string"@,
            Self::PosOverflow => "number too large to fit in target type"@,
            Self::NegOverflow => "number too small to fit in target type"@,
        }
    }

    /// Renders the kind as its message.
    pub fn to_string(&self) -> (text: String)
        ensures
            text@ == self.message(),
    {
        match self {
            Self::Empty => "cannot parse integer from empty string".to_owned(),
            Self::InvalidDigit => "invalid digit found in string".to_owned(),
            Self::PosOverflow => "number too large to fit in target type".to_owned(),
            Self::NegOverflow => "number too small to fit in target type".to_owned(),
        }
    }
}

/// Whether a character is a decimal digit.
pub open spec fn is_digit(c: char) -> bool {
    '0' <= c <= '9'
}

/// The value of a decimal digit.
pub open spec fn digit_value(c: char) -> int {
    c as int - 48
}

/// Reads the first `k` characters of `digits` as a decimal number, from the
/// left, with the sign given. Stops at the first character that is no digit,
/// and at the first digit that takes the number out of `min ..= max`.
pub open spec fn fold_digits(digits: Seq<char>, k: int, negative: bool, min: int, max: int) -> Result<
    int,
    IntErrorKind,
>
    decreases k,
{
    if k <= 0 {
        Ok(0)
    } else {
        match fold_digits(digits, k - 1, negative, min, max) {
            Err(e) => Err(e),
            Ok(v) => {
                let c = digits[k - 1];
                if !is_digit(c) {
                    Err(IntErrorKind::InvalidDigit)
                } else {
                    let next = if negative {
                        v * 10 - digit_value(c)
                    } else {
                        v * 10 + digit_value(c)
                    };
                    if next > max {
                        Err(IntErrorKind::PosOverflow)
                    } else if next < min {
                        Err(IntErrorKind::NegOverflow)
                    } else {
                        Ok(next)
                    }
                }
            },
        }
    }
}

/// The number that a decimal text denotes within `min ..= max`: an optional
/// sign (`-` only where `min` is negative), then one or more digits.
pub open spec fn parse_int(s: Seq<char>, min: int, max: int) -> Result<int, IntErrorKind> {
    if s.len() == 0 {
        Err(IntErrorKind::Empty)
    } else if s.len() == 1 && (s[0] == '+' || s[0] == '-') {
        Err(IntErrorKind::InvalidDigit)
    } else if s[0] == '+' {
        fold_digits(s.subrange(1, s.len() as int), s.len() - 1, false, min, max)
    } else if s[0] == '-' && min < 0 {
        fold_digits(s.subrange(1, s.len() as int), s.len() - 1, true, min, max)
    } else {
        fold_digits(s, s.len() as int, false, min, max)
    }
}

/// A failure of `fold_digits` stays when more characters follow.
pub proof fn lemma_fold_digits_error_stays(
    digits: Seq<char>,
    k: int,
    n: int,
    negative: bool,
    min: int,
    max: int,
)
    requires
        0 <= k <= n,
        fold_digits(digits, k, negative, min, max) is Err,
    ensures
        fold_digits(digits, n, negative, min, max) == fold_digits(digits, k, negative, min, max),
    decreases n - k,
{
    if k < n {
        lemma_fold_digits_error_stays(digits, k, n - 1, negative, min, max);
    }
}

/// Reads `chars[from..]` as digits, as `fold_digits` does.
fn fold_chars(chars: &Vec<char>, from: usize, negative: bool, min: i128, max: i128) -> (value:
    Result<i128, IntErrorKind>)
    requires
        from <= chars.len(),
        -0x1_0000_0000_0000_0000 <= min <= 0 <= max <= 0x1_0000_0000_0000_0000,
    ensures
        match value {
            Ok(v) => fold_digits(
                chars@.subrange(from as int, chars.len() as int),
                chars.len() - from,
                negative,
                min as int,
                max as int,
            ) == Ok::<int, IntErrorKind>(v as int),
            Err(e) => fold_digits(
                chars@.subrange(from as int, chars.len() as int),
                chars.len() - from,
                negative,
                min as int,
                max as int,
            ) == Err::<int, IntErrorKind>(e),
        },
{
    let ghost digits = chars@.subrange(from as int, chars.len() as int);
    let mut acc: i128 = 0;
    let mut i: usize = from;
    while i < chars.len()
        invariant
            from <= i <= chars.len(),
            digits == chars@.subrange(from as int, chars.len() as int),
            -0x1_0000_0000_0000_0000 <= min <= 0 <= max <= 0x1_0000_0000_0000_0000,
            min <= acc <= max,
            fold_digits(digits, i - from, negative, min as int, max as int) == Ok::<
                int,
                IntErrorKind,
            >(acc as int),
        decreases chars.len() - i,
    {
        let c = chars[i];
        assert(digits[i - from] == c);
        if !(c >= '0' && c <= '9') {
            proof {
                lemma_fold_digits_error_stays(
                    digits,
                    i - from + 1,
                    chars.len() - from,
                    negative,
                    min as int,
                    max as int,
                );
            }
            return Err(IntErrorKind::InvalidDigit);
        }
        let digit: i128 = (c as u32 - 48) as i128;
        let next: i128 = if negative {
            acc * 10 - digit
        } else {
            acc * 10 + digit
        };
        if next > max || next < min {
            proof {
                lemma_fold_digits_error_stays(
                    digits,
                    i - from + 1,
                    chars.len() - from,
                    negative,
                    min as int,
                    max as int,
                );
            }
            if next > max {
                return Err(IntErrorKind::PosOverflow);
            }
            return Err(IntErrorKind::NegOverflow);
        }
        acc = next;
        i += 1;
    }
    Ok(acc)
}

/// Reads a decimal text as a number within `min ..= max`.
fn parse_bounded(s: &str, min: i128, max: i128) -> (value: Result<i128, IntErrorKind>)
    requires
        -0x1_0000_0000_0000_0000 <= min <= 0 <= max <= 0x1_0000_0000_0000_0000,
    ensures
        match value {
            Ok(v) => parse_int(s@, min as int, max as int) == Ok::<int, IntErrorKind>(v as int)
                && min <= v <= max,
            Err(e) => parse_int(s@, min as int, max as int) == Err::<int, IntErrorKind>(e),
        },
{
    let chars = str_chars(s);
    if chars.len() == 0 {
        return Err(IntErrorKind::Empty);
    }
    let first = chars[0];
    if chars.len() == 1 && (first == '+' || first == '-') {
        return Err(IntErrorKind::InvalidDigit);
    }
    let value = if first == '+' {
        fold_chars(&chars, 1, false, min, max)
    } else if first == '-' && min < 0 {
        fold_chars(&chars, 1, true, min, max)
    } else {
        assert(chars@.subrange(0, chars.len() as int) =~= chars@);
        fold_chars(&chars, 0, false, min, max)
    };
    proof {
        lemma_fold_digits_bounds(
            if first == '+' || (first == '-' && min < 0) {
                chars@.subrange(1, chars.len() as int)
            } else {
                chars@
            },
            if first == '+' || (first == '-' && min < 0) {
                chars.len() - 1
            } else {
                chars.len() as int
            },
            first == '-' && min < 0,
            min as int,
            max as int,
        );
    }
    value
}

/// What `fold_digits` reads lies within the bounds.
pub proof fn lemma_fold_digits_bounds(digits: Seq<char>, k: int, negative: bool, min: int, max: int)
    requires
        min <= 0 <= max,
    ensures
        fold_digits(digits, k, negative, min, max) is Ok ==> min <= fold_digits(
            digits,
            k,
            negative,
            min,
            max,
        )->Ok_0 <= max,
    decreases k,
{
    if k > 0 {
        lemma_fold_digits_bounds(digits, k - 1, negative, min, max);
    }
}

/// Reads a decimal text as an unsigned 64-bit number.
pub fn parse_u64(s: &str) -> (value: Result<u64, IntErrorKind>)
    ensures
        match value {
            Ok(v) => parse_int(s@, 0, u64::MAX as int) == Ok::<int, IntErrorKind>(v as int),
            Err(e) => parse_int(s@, 0, u64::MAX as int) == Err::<int, IntErrorKind>(e),
        },
{
    match parse_bounded(s, 0, 0xFFFF_FFFF_FFFF_FFFF) {
        Ok(v) => Ok(v as u64),
        Err(e) => Err(e),
    }
}

/// Reads a decimal text as a signed 64-bit number.
pub fn parse_i64(s: &str) -> (value: Result<i64, IntErrorKind>)
    ensures
        match value {
            Ok(v) => parse_int(s@, i64::MIN as int, i64::MAX as int) == Ok::<int, IntErrorKind>(
                v as int,
            ),
            Err(e) => parse_int(s@, i64::MIN as int, i64::MAX as int) == Err::<int, IntErrorKind>(
                e,
            ),
        },
{
    match parse_bounded(s, -0x8000_0000_0000_0000, 0x7FFF_FFFF_FFFF_FFFF) {
        Ok(v) => Ok(v as i64),
        Err(e) => Err(e),
    }
}

/// Reads a decimal text as an unsigned byte.
pub fn parse_u8(s: &str) -> (value: Result<u8, IntErrorKind>)
    ensures
        match value {
            Ok(v) => parse_int(s@, 0, 255) == Ok::<int, IntErrorKind>(v as int),
            Err(e) => parse_int(s@, 0, 255) == Err::<int, IntErrorKind>(e),
        },
{
    match parse_bounded(s, 0, 255) {
        Ok(v) => Ok(v as u8),
        Err(e) => Err(e),
    }
}

/// The first position at or after `from` at which `s` holds `c`.
pub open spec fn index_of_char(s: Seq<char>, c: char, from: int) -> Option<int>
    decreases s.len() - from,
{
    if from < 0 || from >= s.len() {
        None
    } else if s[from] == c {
        Some(from)
    } else {
        index_of_char(s, c, from + 1)
    }
}

/// What `index_of_char` finds is the first occurrence, and it finds one
/// whenever there is one.
pub proof fn lemma_index_of_char(s: Seq<char>, c: char, from: int)
    requires
        0 <= from,
    ensures
        match index_of_char(s, c, from) {
            Some(i) => from <= i < s.len() && s[i] == c && forall|j: int|
                from <= j < i ==> s[j] != c,
            None => forall|j: int| from <= j < s.len() ==> s[j] != c,
        },
    decreases s.len() - from,
{
    if from < s.len() && s[from] != c {
        lemma_index_of_char(s, c, from + 1);
    }
}

/// Searches `chars` for `c` from position `from` on.
pub fn find_char(chars: &Vec<char>, c: char, from: usize) -> (found: Option<usize>)
    ensures
        match found {
            Some(i) => index_of_char(chars@, c, from as int) == Some(i as int) && from <= i
                < chars.len() && chars@[i as int] == c,
            None => index_of_char(chars@, c, from as int) is None,
        },
{
    let mut i: usize = from;
    while i < chars.len()
        invariant
            from <= i,
            index_of_char(chars@, c, from as int) == index_of_char(chars@, c, i as int),
        decreases chars.len() - i,
    {
        if chars[i] == c {
            return Some(i);
        }
        i += 1;
    }
    None
}

/// Ten to the power `k`.
pub open spec fn pow10(k: nat) -> nat
    decreases k,
{
    if k == 0 {
        1
    } else {
        10 * pow10((k - 1) as nat)
    }
}

/// A number below ten to the `k` has at most `k` digits.
pub proof fn lemma_decimal_digits_len(n: nat, k: nat)
    requires
        k >= 1,
        n < pow10(k),
    ensures
        decimal_digits(n).len() <= k,
    decreases k,
{
    if n >= 10 {
        reveal_with_fuel(pow10, 2);
        if k == 1 {
            assert(pow10(1) == 10);
        } else {
            assert(pow10(k) == 10 * pow10((k - 1) as nat));
            assert(n / 10 < pow10((k - 1) as nat));
            lemma_decimal_digits_len(n / 10, (k - 1) as nat);
        }
    }
}

/// The decimal text of a 64-bit number has at most 20 characters, each a
/// digit or the sign.
pub proof fn lemma_decimal_text_short(n: int)
    requires
        -0x8000_0000_0000_0000 <= n <= 0xFFFF_FFFF_FFFF_FFFF,
    ensures
        1 <= decimal_text(n).len() <= 20,
        forall|i: int|
            0 <= i < decimal_text(n).len() ==> is_digit(#[trigger] decimal_text(n)[i])
                || decimal_text(n)[i] == '-',
{
    reveal_with_fuel(pow10, 11);
    assert(pow10(10) == 10_000_000_000);
    assert(pow10(19) == 10_000_000_000_000_000_000);
    assert(pow10(20) == 100_000_000_000_000_000_000);
    if n < 0 {
        lemma_decimal_digits_len((-n) as nat, 19);
        lemma_decimal_digits_ascii((-n) as nat);
    } else {
        lemma_decimal_digits_len(n as nat, 20);
        lemma_decimal_digits_ascii(n as nat);
    }
}

/// A string in which each `from` is replaced by `to`.
pub open spec fn replaced(text: Seq<char>, from: char, to: Seq<char>) -> Seq<char>
    decreases text.len(),
{
    if text.len() == 0 {
        Seq::empty()
    } else {
        replaced(text.drop_last(), from, to) + (if text.last() == from {
            to
        } else {
            seq![text.last()]
        })
    }
}

/// `str::replace` with a character as the pattern: gives the string in
/// which each occurrence of the character is replaced by `to`.
#[verifier::external_body]
pub(crate) fn replace_char(text: &str, from: char, to: &str) -> (result: String)
    ensures
        result@ == replaced(text@, from, to@),
{
    text.replace(from, to)
}

/// What `fold_digits` reads from the first `k` characters does not depend
/// on the characters behind them.
pub proof fn lemma_fold_digits_prefix(
    a: Seq<char>,
    b: Seq<char>,
    k: int,
    negative: bool,
    min: int,
    max: int,
)
    requires
        0 <= k <= a.len(),
        k <= b.len(),
        a.subrange(0, k) == b.subrange(0, k),
    ensures
        fold_digits(a, k, negative, min, max) == fold_digits(b, k, negative, min, max),
    decreases k,
{
    if k > 0 {
        assert(a.subrange(0, k - 1) =~= a.subrange(0, k).subrange(0, k - 1));
        assert(b.subrange(0, k - 1) =~= b.subrange(0, k).subrange(0, k - 1));
        lemma_fold_digits_prefix(a, b, k - 1, negative, min, max);
        assert(a[k - 1] == a.subrange(0, k)[k - 1]);
        assert(b[k - 1] == b.subrange(0, k)[k - 1]);
    }
}

/// The digits of a number are read back as the number, with either sign.
pub proof fn lemma_fold_decimal_digits(n: nat, negative: bool, min: int, max: int)
    requires
        min <= 0 <= max,
        negative ==> min <= -n,
        !negative ==> n <= max,
    ensures
        fold_digits(decimal_digits(n), decimal_digits(n).len() as int, negative, min, max) == Ok::<
            int,
            IntErrorKind,
        >(
            if negative {
                -n
            } else {
                n as int
            },
        ),
    decreases n,
{
    let digits = decimal_digits(n);
    if n < 10 {
        assert(digits.len() == 1);
        assert(fold_digits(digits, 0, negative, min, max) == Ok::<int, IntErrorKind>(0));
        assert(digits[0] == digit_char(n as int));
    } else {
        let shorter = decimal_digits(n / 10);
        lemma_fold_decimal_digits(n / 10, negative, min, max);
        assert(digits == shorter.push(digit_char((n % 10) as int)));
        assert(digits.subrange(0, shorter.len() as int) =~= shorter.subrange(
            0,
            shorter.len() as int,
        ));
        lemma_fold_digits_prefix(digits, shorter, shorter.len() as int, negative, min, max);
        assert(digits[digits.len() - 1] == digit_char((n % 10) as int));
    }
}

/// The decimal text of a number is read back as the number.
pub proof fn law_decimal_text_parses(n: int, min: int, max: int)
    requires
        min <= 0 <= max,
        min <= n <= max,
    ensures
        parse_int(decimal_text(n), min, max) == Ok::<int, IntErrorKind>(n),
{
    if n < 0 {
        let digits = decimal_digits((-n) as nat);
        lemma_decimal_digits_ascii((-n) as nat);
        lemma_fold_decimal_digits((-n) as nat, true, min, max);
        let text = decimal_text(n);
        assert(text[0] == '-');
        assert(text.subrange(1, text.len() as int) =~= digits);
    } else {
        lemma_decimal_digits_ascii(n as nat);
        lemma_fold_decimal_digits(n as nat, false, min, max);
        assert(is_digit(decimal_text(n)[0]));
    }
}

/// The first occurrence of a character in two texts, one after the other,
/// is its first occurrence in the first, or else in the second.
pub proof fn lemma_index_of_char_concat(a: Seq<char>, b: Seq<char>, c: char)
    ensures
        index_of_char(a + b, c, 0) == match index_of_char(a, c, 0) {
            Some(i) => Some(i),
            None => match index_of_char(b, c, 0) {
                Some(j) => Some(a.len() + j),
                None => None,
            },
        },
{
    let s = a + b;
    lemma_index_of_char(s, c, 0);
    lemma_index_of_char(a, c, 0);
    lemma_index_of_char(b, c, 0);
    assert forall|j: int| 0 <= j < a.len() implies s[j] == a[j] by {}
    assert forall|j: int| 0 <= j < b.len() implies s[a.len() + j] == b[j] by {}
    match index_of_char(a, c, 0) {
        Some(i) => {
            assert(s[i] == c);
            let found = index_of_char(s, c, 0)->0;
            if found < i {
                assert(a[found] == s[found]);
            }
        },
        None => {
            match index_of_char(b, c, 0) {
                Some(j) => {
                    assert(s[a.len() + j] == c);
                    let found = index_of_char(s, c, 0)->0;
                    if found < a.len() {
                        assert(a[found] == s[found]);
                    } else if found < a.len() + j {
                        assert(b[found - a.len()] == s[a.len() + (found - a.len())]);
                    }
                },
                None => {
                    if index_of_char(s, c, 0) is Some {
                        let found = index_of_char(s, c, 0)->0;
                        if found < a.len() {
                            assert(a[found] == s[found]);
                        } else {
                            assert(b[found - a.len()] == s[a.len() + (found - a.len())]);
                        }
                    }
                },
            }
        },
    }
}

/// No digit is another character: the digits of a number hold none.
pub proof fn lemma_decimal_digits_hold_no(n: nat, c: char)
    requires
        !is_digit(c),
    ensures
        index_of_char(decimal_digits(n), c, 0) is None,
{
    lemma_decimal_digits_ascii(n);
    lemma_index_of_char(decimal_digits(n), c, 0);
    if index_of_char(decimal_digits(n), c, 0) is Some {
        let i = index_of_char(decimal_digits(n), c, 0)->0;
        assert(is_digit(decimal_digits(n)[i]));
    }
}

} // verus!
