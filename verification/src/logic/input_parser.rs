//! The console tokenizer.
//!
//! A line is split at white space into words; a part in double quotes is one
//! string token, in which a backslash introduces an escape. A word that
//! reads as a decimal integer or as a decimal floating-point number becomes
//! a number token. Positions count characters.

use vstd::prelude::*;

verus! {

/// `String::push` appends one character.
pub assume_specification[ std::string::String::push ](text: &mut std::string::String, c: char)
    ensures
        final(text)@ == old(text)@.push(c),
;

/// `char::from_u32` gives the character with the given code, and `None` for
/// a code that is no Unicode scalar value: a surrogate, or one above
/// `0x10FFFF`.
pub assume_specification[ char::from_u32 ](code: u32) -> (c: Option<char>)
    ensures
        c == (if is_scalar(code as nat) {
            Some(code as char)
        } else {
            None::<char>
        }),
;

/// Why a line could not be split into tokens.
pub enum ParseFault {
    /// A double quote inside a word.
    UnexpectedQuote,
    /// The line ended inside a quoted string.
    UnexpectedEnd,
    /// `\u` is not followed by four hexadecimal digits that name a character.
    InvalidUnicodeEscape,
    /// A backslash is followed by a character that starts no escape.
    InvalidEscapeCharacter,
}

impl ParseFault {
    /// The message by which the fault is reported.
    pub open spec fn text(self) -> Seq<char> {
        match self {
            ParseFault::UnexpectedQuote => "Unexpected quote"@,
            ParseFault::UnexpectedEnd => "Unexpected end of input"@,
            ParseFault::InvalidUnicodeEscape => "Invalid unicode escape"@,
            ParseFault::InvalidEscapeCharacter => "Invalid escape character"@,
        }
    }

    /// The message as a string.
    fn message(self) -> (message: String)
        ensures
            message@ == self.text(),
    {
        match self {
            ParseFault::UnexpectedQuote => "Unexpected quote".to_string(),
            ParseFault::UnexpectedEnd => "Unexpected end of input".to_string(),
            ParseFault::InvalidUnicodeEscape => "Invalid unicode escape".to_string(),
            ParseFault::InvalidEscapeCharacter => "Invalid escape character".to_string(),
        }
    }
}

/// The code is a Unicode scalar value.
pub open spec fn is_scalar(code: nat) -> bool {
    code <= 0xd7ff || 0xe000 <= code <= 0x10ffff
}

/// The character is white space as Unicode defines it (White_Space).
pub open spec fn whitespace(c: char) -> bool {
    let code = c as u32;
    ||| 0x09 <= code <= 0x0d
    ||| code == 0x20
    ||| code == 0x85
    ||| code == 0xa0
    ||| code == 0x1680
    ||| 0x2000 <= code <= 0x200a
    ||| code == 0x2028
    ||| code == 0x2029
    ||| code == 0x202f
    ||| code == 0x205f
    ||| code == 0x3000
}

/// The character is one of `0` to `9`.
pub open spec fn decimal_digit(c: char) -> bool {
    '0' <= c <= '9'
}

/// The character is one of `0` to `9`, `a` to `f`, `A` to `F`.
pub open spec fn hex_digit(c: char) -> bool {
    '0' <= c <= '9' || 'a' <= c <= 'f' || 'A' <= c <= 'F'
}

/// The number that a hexadecimal digit stands for.
pub open spec fn hex_digit_value(c: char) -> nat {
    if '0' <= c <= '9' {
        (c as u32 - '0' as u32) as nat
    } else if 'a' <= c <= 'f' {
        (c as u32 - 'a' as u32 + 10) as nat
    } else {
        (c as u32 - 'A' as u32 + 10) as nat
    }
}

/// Whether the character is white space as Unicode defines it.
pub fn is_whitespace(c: char) -> (yes: bool)
    ensures
        yes == whitespace(c),
{
    let code: u32 = c as u32;
    (0x09 <= code && code <= 0x0d) || code == 0x20 || code == 0x85 || code == 0xa0 || code
        == 0x1680 || (0x2000 <= code && code <= 0x200a) || code == 0x2028 || code == 0x2029
        || code == 0x202f || code == 0x205f || code == 0x3000
}

/// Whether the character is a decimal digit.
fn is_decimal_digit(c: char) -> (yes: bool)
    ensures
        yes == decimal_digit(c),
{
    '0' <= c && c <= '9'
}

/// The value of a hexadecimal digit, `None` for any other character.
fn hex_digit_of(c: char) -> (value: Option<u32>)
    ensures
        value == (if hex_digit(c) {
            Some(hex_digit_value(c) as u32)
        } else {
            None::<u32>
        }),
        hex_digit(c) ==> hex_digit_value(c) < 16,
{
    if '0' <= c && c <= '9' {
        Some(c as u32 - '0' as u32)
    } else if 'a' <= c && c <= 'f' {
        Some(c as u32 - 'a' as u32 + 10)
    } else if 'A' <= c && c <= 'F' {
        Some(c as u32 - 'A' as u32 + 10)
    } else {
        None
    }
}

/// Where reading one escape ends, and what it gave: the character it stands
/// for, or the fault found.
pub struct EscapeScan {
    pub next: int,
    pub outcome: Result<char, ParseFault>,
}

/// Reads the hexadecimal digits of a `\u` escape. `taken` digits have been
/// read already and gave `code`; the next one is expected at `at`.
pub open spec fn scan_code(s: Seq<char>, at: int, taken: nat, code: nat) -> EscapeScan
    decreases 4 - taken,
{
    if taken >= 4 {
        EscapeScan {
            next: at,
            outcome: if is_scalar(code) {
                Ok(code as char)
            } else {
                Err(ParseFault::InvalidUnicodeEscape)
            },
        }
    } else if at >= s.len() {
        EscapeScan { next: at, outcome: Err(ParseFault::UnexpectedEnd) }
    } else if !hex_digit(s[at]) {
        EscapeScan { next: at, outcome: Err(ParseFault::InvalidUnicodeEscape) }
    } else {
        scan_code(s, at + 1, taken + 1, code * 16 + hex_digit_value(s[at]))
    }
}

/// Reads the escape whose backslash stands at `at`.
///
/// `\"`, `\\`, `\n`, `\t`, `\r` and `\0` stand for one character each, and
/// `\u` with four hexadecimal digits for the character of that code. On a
/// fault `next` is the position of the character that was not accepted, or
/// the end of the line; after a character that starts no escape, and after
/// four digits that name no character, it is the position behind them.
pub open spec fn scan_escape(s: Seq<char>, at: int) -> EscapeScan {
    if at + 1 >= s.len() {
        EscapeScan { next: at + 1, outcome: Err(ParseFault::UnexpectedEnd) }
    } else {
        let c = s[at + 1];
        if c == '"' {
            EscapeScan { next: at + 2, outcome: Ok('"') }
        } else if c == '\\' {
            EscapeScan { next: at + 2, outcome: Ok('\\') }
        } else if c == 'n' {
            EscapeScan { next: at + 2, outcome: Ok('\n') }
        } else if c == 't' {
            EscapeScan { next: at + 2, outcome: Ok('\t') }
        } else if c == 'r' {
            EscapeScan { next: at + 2, outcome: Ok('\r') }
        } else if c == '0' {
            EscapeScan { next: at + 2, outcome: Ok('\0') }
        } else if c == 'u' {
            scan_code(s, at + 2, 0, 0)
        } else {
            EscapeScan { next: at + 2, outcome: Err(ParseFault::InvalidEscapeCharacter) }
        }
    }
}

/// Where reading a quoted string ends, the text read so far, and the fault
/// that stopped the reading, if one did.
pub struct StringScan {
    pub next: int,
    pub text: Seq<char>,
    pub fault: Option<ParseFault>,
}

/// Reading the digits of a `\u` escape moves forward, and not beyond the
/// end of the line.
pub proof fn lemma_scan_code_bounds(s: Seq<char>, at: int, taken: nat, code: nat)
    requires
        0 <= at <= s.len(),
    ensures
        at <= scan_code(s, at, taken, code).next <= s.len(),
    decreases 4 - taken,
{
    if taken < 4 && at < s.len() && hex_digit(s[at]) {
        lemma_scan_code_bounds(s, at + 1, taken + 1, code * 16 + hex_digit_value(s[at]));
    }
}

/// Reading an escape moves forward, and not beyond the end of the line.
pub proof fn lemma_scan_escape_bounds(s: Seq<char>, at: int)
    requires
        0 <= at < s.len(),
    ensures
        at < scan_escape(s, at).next <= s.len(),
{
    if at + 1 < s.len() && s[at + 1] == 'u' {
        lemma_scan_code_bounds(s, at + 2, 0, 0);
    }
}

/// Reads the inside of a quoted string from `at` on, appending to `text`,
/// up to and including the closing quote.
pub open spec fn scan_string(s: Seq<char>, at: int, text: Seq<char>) -> StringScan
    decreases s.len() - at,
{
    if at < 0 || at >= s.len() {
        StringScan { next: at, text, fault: Some(ParseFault::UnexpectedEnd) }
    } else if s[at] == '"' {
        StringScan { next: at + 1, text, fault: None }
    } else if s[at] == '\\' {
        let escape = scan_escape(s, at);
        proof {
            lemma_scan_escape_bounds(s, at);
        }
        match escape.outcome {
            Ok(c) => scan_string(s, escape.next, text.push(c)),
            Err(fault) => StringScan { next: escape.next, text, fault: Some(fault) },
        }
    } else {
        scan_string(s, at + 1, text.push(s[at]))
    }
}

/// Reading a quoted string moves forward, and not beyond the end of the
/// line.
pub proof fn lemma_scan_string_bounds(s: Seq<char>, at: int, text: Seq<char>)
    requires
        0 <= at <= s.len(),
    ensures
        at <= scan_string(s, at, text).next <= s.len(),
        at < s.len() ==> at < scan_string(s, at, text).next,
    decreases s.len() - at,
{
    if at < s.len() {
        if s[at] == '"' {
        } else if s[at] == '\\' {
            lemma_scan_escape_bounds(s, at);
            let escape = scan_escape(s, at);
            if let Ok(c) = escape.outcome {
                lemma_scan_string_bounds(s, escape.next, text.push(c));
            }
        } else {
            lemma_scan_string_bounds(s, at + 1, text.push(s[at]));
        }
    }
}

/// Reads the escape whose backslash stands at `*idx`, appends the character
/// it stands for to `buffer`, and moves `*idx` behind the escape. On a
/// fault the buffer is left as it was.
pub fn handle_escape(
    input: &&str,
    idx: &mut usize,
    buffer: &mut String,
) -> (result: Result<(), String>)
    requires
        *old(idx) < input@.len(),
        input@[*old(idx) as int] == '\\',
    ensures
        *final(idx) == scan_escape(input@, *old(idx) as int).next,
        match scan_escape(input@, *old(idx) as int).outcome {
            Ok(c) => result is Ok && final(buffer)@ == old(buffer)@.push(c),
            Err(fault) => {
                &&& result matches Err(message)
                &&& message@ == fault.text()
                &&& final(buffer)@ == old(buffer)@
            },
        },
{
    let length = input.unicode_len();
    *idx += 1;
    if *idx >= length {
        return Err(ParseFault::UnexpectedEnd.message());
    }
    let c = input.get_char(*idx);
    *idx += 1;
    if c == '"' {
        buffer.push('"');
    } else if c == '\\' {
        buffer.push('\\');
    } else if c == 'n' {
        buffer.push('\n');
    } else if c == 't' {
        buffer.push('\t');
    } else if c == 'r' {
        buffer.push('\r');
    } else if c == '0' {
        buffer.push('\0');
    } else if c == 'u' {
        let mut code: u32 = 0;
        let mut taken: usize = 0;
        while taken < 4
            invariant
                taken <= 4,
                *idx <= length,
                length == input@.len(),
                code < 0x10000,
                taken == 0 ==> code == 0,
                taken <= 1 ==> code < 0x10,
                taken <= 2 ==> code < 0x100,
                taken <= 3 ==> code < 0x1000,
                scan_code(input@, *idx as int, taken as nat, code as nat) == scan_escape(
                    input@,
                    *old(idx) as int,
                ),
            decreases 4 - taken,
        {
            if *idx >= length {
                return Err(ParseFault::UnexpectedEnd.message());
            }
            match hex_digit_of(input.get_char(*idx)) {
                None => {
                    return Err(ParseFault::InvalidUnicodeEscape.message());
                },
                Some(digit) => {
                    code = code * 16 + digit;
                    taken += 1;
                    *idx += 1;
                },
            }
        }
        match char::from_u32(code) {
            Some(named) => {
                buffer.push(named);
            },
            None => {
                return Err(ParseFault::InvalidUnicodeEscape.message());
            },
        }
    } else {
        return Err(ParseFault::InvalidEscapeCharacter.message());
    }
    Ok(())
}

/// Reads the quoted string whose opening quote stands at `*idx`, appends
/// its text to `buffer`, and moves `*idx` behind the closing quote. On a
/// fault the buffer holds what was read before it, and `*idx` is where the
/// reading stopped.
#[verifier::loop_isolation(false)]
pub fn handle_string(
    input: &&str,
    idx: &mut usize,
    buffer: &mut String,
) -> (result: Result<(), String>)
    requires
        *old(idx) < input@.len(),
        input@[*old(idx) as int] == '"',
    ensures
        *final(idx) == scan_string(input@, *old(idx) + 1, old(buffer)@).next,
        final(buffer)@ == scan_string(input@, *old(idx) + 1, old(buffer)@).text,
        match scan_string(input@, *old(idx) + 1, old(buffer)@).fault {
            None => result is Ok,
            Some(fault) => result matches Err(message) && message@ == fault.text(),
        },
{
    let length = input.unicode_len();
    let ghost whole = scan_string(input@, *idx + 1, buffer@);
    *idx += 1;
    while *idx < length
        invariant
            *idx <= length,
            length == input@.len(),
            scan_string(input@, *idx as int, buffer@) == whole,
        decreases length - *idx,
    {
        let c = input.get_char(*idx);
        if c == '"' {
            *idx += 1;
            return Ok(());
        } else if c == '\\' {
            proof {
                lemma_scan_escape_bounds(input@, *idx as int);
            }
            match handle_escape(input, idx, buffer) {
                Err(message) => {
                    return Err(message);
                },
                Ok(()) => {},
            }
        } else {
            buffer.push(c);
            *idx += 1;
        }
    }
    Err(ParseFault::UnexpectedEnd.message())
}

/// The number that a decimal digit stands for.
pub open spec fn decimal_digit_value(c: char) -> nat {
    (c as u32 - '0' as u32) as nat
}

/// The number that a sequence of decimal digits denotes.
pub open spec fn decimal_value(digits: Seq<char>) -> nat
    decreases digits.len(),
{
    if digits.len() == 0 {
        0
    } else {
        10 * decimal_value(digits.drop_last()) + decimal_digit_value(digits.last())
    }
}

/// Every character is a decimal digit.
pub open spec fn all_decimal(digits: Seq<char>) -> bool {
    forall|i: int| 0 <= i < digits.len() ==> decimal_digit(#[trigger] digits[i])
}

/// The word starts with a plus or minus sign.
pub open spec fn signed(word: Seq<char>) -> bool {
    word.len() > 0 && (word[0] == '+' || word[0] == '-')
}

/// The integer that a word denotes: an optional sign and at least one
/// decimal digit, nothing else, and a value that a 64-bit signed integer
/// can hold.
pub open spec fn integer_of(word: Seq<char>) -> Option<i64> {
    let digits = if signed(word) {
        word.skip(1)
    } else {
        word
    };
    let value = if signed(word) && word[0] == '-' {
        -(decimal_value(digits) as int)
    } else {
        decimal_value(digits) as int
    };
    if digits.len() > 0 && all_decimal(digits) && i64::MIN <= value <= i64::MAX {
        Some(value as i64)
    } else {
        None
    }
}

/// Position of the first character at or behind `at` that is no decimal
/// digit; the end of the word if there is none.
pub open spec fn digits_end(word: Seq<char>, at: int) -> int
    decreases word.len() - at,
{
    if 0 <= at < word.len() && decimal_digit(word[at]) {
        digits_end(word, at + 1)
    } else {
        at
    }
}

/// The lower-case form of an ASCII letter; any other character itself.
pub open spec fn ascii_lower(c: char) -> char {
    if 'A' <= c <= 'Z' {
        ((c as u32) + 32) as char
    } else {
        c
    }
}

/// From `at` on the word spells `pattern`, whatever the case of its
/// letters, and ends with it.
pub open spec fn spells(word: Seq<char>, at: int, pattern: Seq<char>) -> bool {
    &&& word.len() - at == pattern.len()
    &&& forall|i: int| 0 <= i < pattern.len() ==> ascii_lower(#[trigger] word[at + i]) == pattern[i]
}

/// From `at` on the word is an exponent: `e` or `E`, an optional sign, and
/// at least one decimal digit up to the end of the word.
pub open spec fn exponent(word: Seq<char>, at: int) -> bool {
    let marked = 0 <= at < word.len() && (word[at] == 'e' || word[at] == 'E');
    let sign = at + 1 < word.len() && (word[at + 1] == '+' || word[at + 1] == '-');
    let first = if sign {
        at + 2
    } else {
        at + 1
    };
    marked && first < digits_end(word, first) && digits_end(word, first) == word.len()
}

/// From `at` on the word is a decimal number: digits, with or without a
/// decimal point among, before or behind them, and an optional exponent.
pub open spec fn decimal_number(word: Seq<char>, at: int) -> bool {
    let point = digits_end(word, at);
    let pointed = point < word.len() && word[point] == '.';
    let fraction = if pointed {
        point + 1
    } else {
        point
    };
    let end = digits_end(word, fraction);
    let digits = (point - at) + (end - fraction);
    digits >= 1 && (end == word.len() || exponent(word, end))
}

/// The word reads as a floating-point number: an optional sign followed by
/// a decimal number or by `inf`, `infinity` or `nan` in any case.
pub open spec fn float_text(word: Seq<char>) -> bool {
    let at: int = if signed(word) {
        1
    } else {
        0
    };
    ||| decimal_number(word, at)
    ||| spells(word, at, seq!['i', 'n', 'f'])
    ||| spells(word, at, seq!['i', 'n', 'f', 'i', 'n', 'i', 't', 'y'])
    ||| spells(word, at, seq!['n', 'a', 'n'])
}

/// A longer run of digits denotes no smaller number.
proof fn lemma_decimal_value_grows(digits: Seq<char>, count: int)
    requires
        0 <= count <= digits.len(),
    ensures
        decimal_value(digits.take(count)) <= decimal_value(digits),
    decreases digits.len() - count,
{
    if count == digits.len() {
        assert(digits.take(count) =~= digits);
    } else {
        lemma_decimal_value_grows(digits, count + 1);
        assert(digits.take(count + 1).drop_last() =~= digits.take(count));
    }
}

/// The integer that the word denotes, if it denotes one.
#[verifier::loop_isolation(false)]
pub fn parse_integer(word: &str) -> (value: Option<i64>)
    ensures
        value == integer_of(word@),
{
    let length = word.unicode_len();
    if length == 0 {
        return None;
    }
    let first = word.get_char(0);
    let negative = first == '-';
    let start: usize = if first == '-' || first == '+' {
        1
    } else {
        0
    };
    if start >= length {
        return None;
    }
    let ghost digits = if signed(word@) {
        word@.skip(1)
    } else {
        word@
    };
    let mut magnitude: u64 = 0;
    let mut k: usize = start;
    while k < length
        invariant
            start <= k <= length,
            length == word@.len(),
            digits.len() == length - start,
            forall|i: int| 0 <= i < digits.len() ==> digits[i] == word@[start + i],
            all_decimal(digits.take(k - start)),
            magnitude == decimal_value(digits.take(k - start)),
            magnitude <= 0x8000_0000_0000_0000,
        decreases length - k,
    {
        let c = word.get_char(k);
        if !is_decimal_digit(c) {
            assert(!decimal_digit(digits[k - start]));
            return None;
        }
        let digit: u64 = (c as u32 - '0' as u32) as u64;
        proof {
            assert(digits.take(k - start + 1).drop_last() =~= digits.take(k - start));
            assert(digits.take(k - start + 1).last() == c);
            assert(decimal_value(digits.take(k - start + 1)) == 10 * magnitude + digit);
        }
        if magnitude > 0x0ccc_cccc_cccc_cccc || magnitude * 10 + digit > 0x8000_0000_0000_0000 {
            proof {
                lemma_decimal_value_grows(digits, k - start + 1);
            }
            return None;
        }
        magnitude = magnitude * 10 + digit;
        k += 1;
        proof {
            assert forall|i: int| 0 <= i < digits.take(k - start).len() implies decimal_digit(
                #[trigger] digits.take(k - start)[i],
            ) by {
                if i < k - start - 1 {
                    assert(digits.take(k - start - 1)[i] == digits[i]);
                }
            }
        }
    }
    proof {
        assert(digits.take(k - start) =~= digits);
    }
    if negative {
        if magnitude == 0x8000_0000_0000_0000 {
            Some(i64::MIN)
        } else {
            Some(-(magnitude as i64))
        }
    } else if magnitude > 0x7fff_ffff_ffff_ffff {
        None
    } else {
        Some(magnitude as i64)
    }
}

/// Moves over the decimal digits that start at `from`.
fn skip_digits(word: &str, length: usize, from: usize) -> (end: usize)
    requires
        length == word@.len(),
        from <= length,
    ensures
        end == digits_end(word@, from as int),
        from <= end <= length,
{
    let mut k = from;
    while k < length && is_decimal_digit(word.get_char(k))
        invariant
            from <= k <= length,
            length == word@.len(),
            digits_end(word@, k as int) == digits_end(word@, from as int),
        decreases length - k,
    {
        k += 1;
    }
    k
}

/// The lower-case form of an ASCII letter; any other character itself.
fn to_ascii_lower(c: char) -> (lower: char)
    ensures
        lower == ascii_lower(c),
{
    if 'A' <= c && c <= 'Z' {
        match char::from_u32(c as u32 + 32) {
            Some(lower) => lower,
            None => c,
        }
    } else {
        c
    }
}

/// Whether the word, from `at` on, spells `pattern` in any case.
fn spells_at(word: &str, length: usize, at: usize, pattern: &str) -> (yes: bool)
    requires
        length == word@.len(),
        at <= length,
    ensures
        yes == spells(word@, at as int, pattern@),
{
    let size = pattern.unicode_len();
    if length - at != size {
        return false;
    }
    let mut i: usize = 0;
    while i < size
        invariant
            i <= size,
            size == pattern@.len(),
            length == word@.len(),
            length - at == size,
            forall|j: int| 0 <= j < i ==> ascii_lower(#[trigger] word@[at + j]) == pattern@[j],
        decreases size - i,
    {
        if to_ascii_lower(word.get_char(at + i)) != pattern.get_char(i) {
            return false;
        }
        i += 1;
    }
    true
}

/// Whether the word, from `at` on, is an exponent.
fn is_exponent(word: &str, length: usize, at: usize) -> (yes: bool)
    requires
        length == word@.len(),
        at < length,
    ensures
        yes == exponent(word@, at as int),
{
    let mark = word.get_char(at);
    if mark != 'e' && mark != 'E' {
        return false;
    }
    let mut first = at + 1;
    if first < length {
        let sign = word.get_char(first);
        if sign == '+' || sign == '-' {
            first += 1;
        }
    }
    let end = skip_digits(word, length, first);
    first < end && end == length
}

/// Whether the word, from `at` on, is a decimal number.
fn is_decimal_number(word: &str, length: usize, at: usize) -> (yes: bool)
    requires
        length == word@.len(),
        at <= length,
    ensures
        yes == decimal_number(word@, at as int),
{
    let point = skip_digits(word, length, at);
    let pointed = point < length && word.get_char(point) == '.';
    let fraction = if pointed {
        point + 1
    } else {
        point
    };
    let end = skip_digits(word, length, fraction);
    let digits = (point - at) + (end - fraction);
    if digits < 1 {
        return false;
    }
    if end == length {
        return true;
    }
    is_exponent(word, length, end)
}

/// Whether the word reads as a floating-point number.
pub fn is_float_text(word: &str) -> (yes: bool)
    ensures
        yes == float_text(word@),
{
    let length = word.unicode_len();
    let at: usize = if length > 0 && (word.get_char(0) == '+' || word.get_char(0) == '-') {
        1
    } else {
        0
    };
    proof {
        reveal_strlit("inf");
        reveal_strlit("infinity");
        reveal_strlit("nan");
        assert("inf"@ =~= seq!['i', 'n', 'f']);
        assert("infinity"@ =~= seq!['i', 'n', 'f', 'i', 'n', 'i', 't', 'y']);
        assert("nan"@ =~= seq!['n', 'a', 'n']);
    }
    is_decimal_number(word, length, at) || spells_at(word, length, at, "inf") || spells_at(
        word,
        length,
        at,
        "infinity",
    ) || spells_at(word, length, at, "nan")
}

/// One token of a console line.
#[derive(Debug, PartialEq, PartialOrd)]
pub enum InputToken {
    /// A word that is no number.
    General(String),
    /// The text of a quoted string, escapes resolved.
    String(String),
    /// A word that denotes a 64-bit signed integer.
    Integer(i64),
    /// A word that reads as a floating-point number and not as an integer;
    /// the field is the word itself.
    Float(String),
}

/// Mathematical value of an [`InputToken`].
pub enum TokenView {
    General(Seq<char>),
    String(Seq<char>),
    Integer(i64),
    Float(Seq<char>),
}

impl View for InputToken {
    type V = TokenView;

    open spec fn view(&self) -> TokenView {
        match self {
            InputToken::General(word) => TokenView::General(word@),
            InputToken::String(text) => TokenView::String(text@),
            InputToken::Integer(value) => TokenView::Integer(*value),
            InputToken::Float(word) => TokenView::Float(word@),
        }
    }
}

impl Clone for InputToken {
    fn clone(&self) -> (copy: Self)
        ensures
            copy@ == self@,
    {
        match self {
            InputToken::General(word) => InputToken::General(word.clone()),
            InputToken::String(text) => InputToken::String(text.clone()),
            InputToken::Integer(value) => InputToken::Integer(*value),
            InputToken::Float(word) => InputToken::Float(word.clone()),
        }
    }
}

/// The values of a list of tokens, in order.
pub open spec fn tokens_of(tokens: Seq<InputToken>) -> Seq<TokenView> {
    Seq::new(tokens.len(), |i: int| tokens[i]@)
}

/// The token that a word becomes: an integer if it denotes one, else a
/// floating-point number if it reads as one, else a general word.
pub open spec fn classify(word: Seq<char>) -> TokenView {
    match integer_of(word) {
        Some(value) => TokenView::Integer(value),
        None => if float_text(word) {
            TokenView::Float(word)
        } else {
            TokenView::General(word)
        },
    }
}

/// Turns a word into its token.
pub fn parse_token(input: String) -> (token: InputToken)
    ensures
        token@ == classify(input@),
{
    match parse_integer(input.as_str()) {
        Some(value) => InputToken::Integer(value),
        None => if is_float_text(input.as_str()) {
            InputToken::Float(input)
        } else {
            InputToken::General(input)
        },
    }
}

/// The character ends a word: white space or a double quote.
pub open spec fn ends_word(c: char) -> bool {
    whitespace(c) || c == '"'
}

/// Position of the first character at or behind `at` that ends a word; the
/// end of the line if there is none.
pub open spec fn word_end(s: Seq<char>, at: int) -> int
    decreases s.len() - at,
{
    if 0 <= at < s.len() && !ends_word(s[at]) {
        word_end(s, at + 1)
    } else {
        at
    }
}

/// Splits the line from `at` on into tokens, behind those in `tokens`.
///
/// White space separates. A double quote opens a string token. Any other
/// character opens a word, which runs up to the next white space or the end
/// of the line; a double quote that follows a word without white space
/// between is a fault.
pub open spec fn scan_tokens(
    s: Seq<char>,
    at: int,
    tokens: Seq<TokenView>,
) -> Result<Seq<TokenView>, ParseFault>
    decreases s.len() - at,
{
    if at < 0 || at >= s.len() {
        Ok(tokens)
    } else if s[at] == '"' {
        let quoted = scan_string(s, at + 1, Seq::empty());
        proof {
            lemma_scan_string_bounds(s, at + 1, Seq::empty());
        }
        match quoted.fault {
            Some(fault) => Err(fault),
            None => scan_tokens(s, quoted.next, tokens.push(TokenView::String(quoted.text))),
        }
    } else if whitespace(s[at]) {
        scan_tokens(s, at + 1, tokens)
    } else {
        let end = word_end(s, at);
        proof {
            lemma_word_end(s, at);
        }
        if end < s.len() && s[end] == '"' {
            Err(ParseFault::UnexpectedQuote)
        } else {
            scan_tokens(s, end, tokens.push(classify(s.subrange(at, end))))
        }
    }
}

/// The tokens of a line, or the first fault in it.
pub open spec fn tokens_in(s: Seq<char>) -> Result<Seq<TokenView>, ParseFault> {
    scan_tokens(s, 0, Seq::empty())
}

/// A word ends at or behind its start, inside the line, and behind its
/// start if its first character does not end it.
pub proof fn lemma_word_end(s: Seq<char>, at: int)
    requires
        0 <= at <= s.len(),
    ensures
        at <= word_end(s, at) <= s.len(),
        at < s.len() && !ends_word(s[at]) ==> at < word_end(s, at),
    decreases s.len() - at,
{
    if at < s.len() && !ends_word(s[at]) {
        lemma_word_end(s, at + 1);
    }
}

/// Splits a console line into tokens. Returns the tokens in the order of
/// the line, or the message of the first fault.
pub fn parse_input(input: &str) -> (result: Result<Vec<InputToken>, String>)
    ensures
        match tokens_in(input@) {
            Ok(expected) => result matches Ok(tokens) && tokens_of(tokens@) == expected,
            Err(fault) => result matches Err(message) && message@ == fault.text(),
        },
{
    let length = input.unicode_len();
    let mut tokens: Vec<InputToken> = Vec::new();
    let mut idx: usize = 0;
    assert(tokens_of(tokens@) =~= Seq::empty());
    while idx < length
        invariant
            idx <= length,
            length == input@.len(),
            scan_tokens(input@, idx as int, tokens_of(tokens@)) == tokens_in(input@),
        decreases length - idx,
    {
        let c = input.get_char(idx);
        let ghost before = tokens_of(tokens@);
        if c == '"' {
            let mut buffer = String::new();
            proof {
                lemma_scan_string_bounds(input@, idx + 1, Seq::empty());
            }
            match handle_string(&input, &mut idx, &mut buffer) {
                Err(message) => {
                    return Err(message);
                },
                Ok(()) => {
                    let token = InputToken::String(buffer);
                    tokens.push(token);
                    assert(tokens_of(tokens@) =~= before.push(token@));
                },
            }
        } else if is_whitespace(c) {
            idx += 1;
        } else {
            let start = idx;
            let mut buffer = String::new();
            proof {
                lemma_word_end(input@, start as int);
            }
            while idx < length && !is_word_end(input.get_char(idx))
                invariant
                    start <= idx <= length,
                    length == input@.len(),
                    buffer@ == input@.subrange(start as int, idx as int),
                    word_end(input@, idx as int) == word_end(input@, start as int),
                decreases length - idx,
            {
                buffer.push(input.get_char(idx));
                idx += 1;
                assert(buffer@ =~= input@.subrange(start as int, idx as int));
            }
            if idx < length && input.get_char(idx) == '"' {
                return Err(ParseFault::UnexpectedQuote.message());
            }
            let token = parse_token(buffer);
            tokens.push(token);
            assert(tokens_of(tokens@) =~= before.push(token@));
        }
    }
    Ok(tokens)
}

/// Whether the character ends a word.
fn is_word_end(c: char) -> (yes: bool)
    ensures
        yes == ends_word(c),
{
    is_whitespace(c) || c == '"'
}

/// From `at` on, no double quote stands outside an escape: a backslash
/// takes the character behind it with it, whatever that character is.
pub open spec fn unclosed(s: Seq<char>, at: int) -> bool
    decreases s.len() - at,
{
    if at < 0 || at >= s.len() {
        true
    } else if s[at] == '"' {
        false
    } else if s[at] == '\\' {
        at + 1 >= s.len() || unclosed(s, at + 2)
    } else {
        unclosed(s, at + 1)
    }
}

/// Splitting the line from `from` on comes to `to` without a fault: a
/// token, or the white space before one, starts at `to`.
pub open spec fn scan_reaches(s: Seq<char>, from: int, to: int) -> bool
    decreases s.len() - from,
{
    if from == to {
        true
    } else if from < 0 || from >= s.len() || from > to {
        false
    } else if s[from] == '"' {
        let quoted = scan_string(s, from + 1, Seq::empty());
        proof {
            lemma_scan_string_bounds(s, from + 1, Seq::empty());
        }
        quoted.fault is None && scan_reaches(s, quoted.next, to)
    } else if whitespace(s[from]) {
        scan_reaches(s, from + 1, to)
    } else {
        let end = word_end(s, from);
        proof {
            lemma_word_end(s, from);
        }
        !(end < s.len() && s[end] == '"') && scan_reaches(s, end, to)
    }
}

/// The digits of a `\u` escape hold no quote and no backslash: what is
/// unclosed before them is unclosed behind them.
proof fn lemma_unclosed_behind_code(s: Seq<char>, at: int, taken: nat, code: nat)
    requires
        0 <= at,
        unclosed(s, at),
        scan_code(s, at, taken, code).outcome is Ok,
    ensures
        unclosed(s, scan_code(s, at, taken, code).next),
    decreases 4 - taken,
{
    if taken < 4 {
        lemma_unclosed_behind_code(s, at + 1, taken + 1, code * 16 + hex_digit_value(s[at]));
    }
}

/// A string that no quote closes ends in a fault: the end of the line, or
/// an escape that is none. Without a backslash it is the end of the line.
proof fn lemma_unclosed_string_faults(s: Seq<char>, at: int, text: Seq<char>)
    requires
        0 <= at,
        unclosed(s, at),
    ensures
        scan_string(s, at, text).fault is Some,
        scan_string(s, at, text).fault != Some(ParseFault::UnexpectedQuote),
        (forall|j: int| at <= j < s.len() ==> s[j] != '\\') ==> scan_string(s, at, text).fault
            == Some(ParseFault::UnexpectedEnd),
    decreases s.len() - at,
{
    if at < s.len() {
        if s[at] == '\\' {
            lemma_scan_escape_bounds(s, at);
            let escape = scan_escape(s, at);
            if let Ok(c) = escape.outcome {
                if s[at + 1] == 'u' {
                    lemma_unclosed_behind_code(s, at + 2, 0, 0);
                }
                lemma_unclosed_string_faults(s, escape.next, text.push(c));
            } else if at + 1 < s.len() && s[at + 1] == 'u' {
                lemma_code_faults(s, at + 2, 0, 0);
            }
        } else {
            lemma_unclosed_string_faults(s, at + 1, text.push(s[at]));
        }
    }
}

/// The digits of a `\u` escape give no fault but the end of the line and
/// the invalid escape.
proof fn lemma_code_faults(s: Seq<char>, at: int, taken: nat, code: nat)
    ensures
        scan_code(s, at, taken, code).outcome != Err::<char, ParseFault>(
            ParseFault::UnexpectedQuote,
        ),
    decreases 4 - taken,
{
    if taken < 4 && at < s.len() && hex_digit(s[at]) {
        lemma_code_faults(s, at + 1, taken + 1, code * 16 + hex_digit_value(s[at]));
    }
}

/// What stops the string that opens at `to` stops the whole line, if the
/// splitting comes to `to`.
proof fn lemma_fault_behind_tokens(
    s: Seq<char>,
    from: int,
    to: int,
    tokens: Seq<TokenView>,
    fault: ParseFault,
)
    requires
        0 <= from,
        0 <= to < s.len(),
        s[to] == '"',
        scan_reaches(s, from, to),
        scan_string(s, to + 1, Seq::empty()).fault == Some(fault),
    ensures
        scan_tokens(s, from, tokens) == Err::<Seq<TokenView>, ParseFault>(fault),
    decreases s.len() - from,
{
    if from != to {
        if s[from] == '"' {
            let quoted = scan_string(s, from + 1, Seq::empty());
            lemma_scan_string_bounds(s, from + 1, Seq::empty());
            lemma_fault_behind_tokens(
                s,
                quoted.next,
                to,
                tokens.push(TokenView::String(quoted.text)),
                fault,
            );
        } else if whitespace(s[from]) {
            lemma_fault_behind_tokens(s, from + 1, to, tokens, fault);
        } else {
            let end = word_end(s, from);
            lemma_word_end(s, from);
            lemma_fault_behind_tokens(
                s,
                end,
                to,
                tokens.push(classify(s.subrange(from, end))),
                fault,
            );
        }
    }
}

/// A quoted string that is never closed is reported, wherever in the line
/// it opens: if a token starts at a double quote and no double quote
/// outside an escape follows, the line has no tokens but a fault. The
/// fault is the end of the input or an escape that is none; without a
/// backslash behind the quote it is the end of the input.
pub proof fn law_unclosed_string_is_reported(s: Seq<char>, open: int)
    requires
        0 <= open < s.len(),
        s[open] == '"',
        scan_reaches(s, 0, open),
        unclosed(s, open + 1),
    ensures
        tokens_in(s) is Err,
        tokens_in(s) != Err::<Seq<TokenView>, ParseFault>(ParseFault::UnexpectedQuote),
        (forall|j: int| open < j < s.len() ==> s[j] != '\\') ==> tokens_in(s) == Err::<
            Seq<TokenView>,
            ParseFault,
        >(ParseFault::UnexpectedEnd),
{
    lemma_unclosed_string_faults(s, open + 1, Seq::empty());
    let fault = scan_string(s, open + 1, Seq::empty()).fault->0;
    lemma_fault_behind_tokens(s, 0, open, Seq::empty(), fault);
}

/// White space at the start of a line changes nothing: the tokens are
/// those of the rest.
pub proof fn law_leading_space_is_skipped(s: Seq<char>, count: int)
    requires
        0 <= count <= s.len(),
        forall|j: int| 0 <= j < count ==> whitespace(#[trigger] s[j]),
    ensures
        tokens_in(s) == scan_tokens(s, count, Seq::empty()),
    decreases count,
{
    if count > 0 {
        law_leading_space_is_skipped(s, count - 1);
    }
}

} // verus!
