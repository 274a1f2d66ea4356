//! Percent-decoding of the URL payload.
//!
//! Outside an escape a character stands for itself. A `%` takes the two
//! characters after it as hexadecimal digits, high digit first, and the three
//! together stand for the character with that code.

use vstd::prelude::*;
use crate::error::FormatError;
use crate::text::{from_chars, to_chars};

verus! {

/// The value of a hexadecimal digit, in either case; `None` for any other
/// character.
pub open spec fn hex_value(c: char) -> Option<u32> {
    if '0' <= c <= '9' {
        Some((c as u32 - '0' as u32) as u32)
    } else if 'a' <= c <= 'f' {
        Some((c as u32 - 'a' as u32 + 10) as u32)
    } else if 'A' <= c <= 'F' {
        Some((c as u32 - 'A' as u32 + 10) as u32)
    } else {
        None
    }
}

/// The character an escape with digits of values `high` and `low` stands for.
pub open spec fn escaped_char(high: u32, low: u32) -> char
    recommends
        high < 16,
        low < 16,
{
    ((16 * high + low) as u8) as char
}

/// `prefix` put before the text of a successful result; an error as it is.
pub open spec fn after(prefix: Seq<char>, rest: Result<Seq<char>, FormatError>) -> Result<
    Seq<char>,
    FormatError,
> {
    match rest {
        Ok(t) => Ok(prefix + t),
        Err(e) => Err(e),
    }
}

/// The decoding of `s` from position `i` on, or the first error met when
/// reading from there: a character after `%` that is no hexadecimal digit,
/// or the end of the text inside an escape.
pub open spec fn unescape_from(s: Seq<char>, i: int) -> Result<Seq<char>, FormatError>
    decreases s.len() - i,
{
    if i < 0 || i >= s.len() {
        Ok(Seq::empty())
    } else if s[i] != '%' {
        after(seq![s[i]], unescape_from(s, i + 1))
    } else if i + 1 >= s.len() {
        Err(FormatError::TruncatedEscape)
    } else {
        match hex_value(s[i + 1]) {
            None => Err(FormatError::InvalidHexDigit(s[i + 1])),
            Some(high) => if i + 2 >= s.len() {
                Err(FormatError::TruncatedEscape)
            } else {
                match hex_value(s[i + 2]) {
                    None => Err(FormatError::InvalidHexDigit(s[i + 2])),
                    Some(low) => after(seq![escaped_char(high, low)], unescape_from(s, i + 3)),
                }
            },
        }
    }
}

/// The percent-decoding of `s`.
pub open spec fn unescape_text(s: Seq<char>) -> Result<Seq<char>, FormatError> {
    unescape_from(s, 0)
}

/// The value of the hexadecimal digit `ch`. Exactly the characters `0` to
/// `9`, `a` to `f` and `A` to `F` are digits; any other character is
/// returned in the error.
pub fn hex_digit_value(ch: char) -> (r: Result<u32, FormatError>)
    ensures
        r == match hex_value(ch) {
            Some(v) => Ok::<u32, FormatError>(v),
            None => Err(FormatError::InvalidHexDigit(ch)),
        },
        r matches Ok(v) ==> v < 16,
        r is Ok <==> ('0' <= ch <= '9' || 'a' <= ch <= 'f' || 'A' <= ch <= 'F'),
{
    match ch {
        '0' => Ok(0),
        '1' => Ok(1),
        '2' => Ok(2),
        '3' => Ok(3),
        '4' => Ok(4),
        '5' => Ok(5),
        '6' => Ok(6),
        '7' => Ok(7),
        '8' => Ok(8),
        '9' => Ok(9),
        'a' => Ok(10),
        'b' => Ok(11),
        'c' => Ok(12),
        'd' => Ok(13),
        'e' => Ok(14),
        'f' => Ok(15),
        'A' => Ok(10),
        'B' => Ok(11),
        'C' => Ok(12),
        'D' => Ok(13),
        'E' => Ok(14),
        'F' => Ok(15),
        _ => Err(FormatError::InvalidHexDigit(ch)),
    }
}

/// Whether `r` is the exact counterpart of the result `m` in the model.
pub open spec fn chars_agree(r: Result<Vec<char>, FormatError>, m: Result<Seq<char>, FormatError>)
    -> bool {
    match r {
        Ok(t) => m == Ok::<Seq<char>, FormatError>(t@),
        Err(e) => m == Err::<Seq<char>, FormatError>(e),
    }
}

/// Decodes the `%` escapes of the characters of `chars` from position `from`
/// on.
pub(crate) fn unescape_chars(chars: &Vec<char>, from: usize) -> (r: Result<Vec<char>, FormatError>)
    requires
        from <= chars.len(),
    ensures
        chars_agree(r, unescape_text(chars@.skip(from as int))),
{
    let ghost text = chars@.skip(from as int);
    let n = chars.len();
    let mut out: Vec<char> = Vec::new();
    let mut i: usize = from;
    assert(after(out@, unescape_from(text, 0)) == unescape_from(text, 0)) by {
        match unescape_from(text, 0) {
            Ok(t) => assert(out@ + t =~= t),
            Err(_) => {},
        }
    }
    while i < n
        invariant
            from <= i <= n,
            n == chars.len(),
            text == chars@.skip(from as int),
            unescape_text(text) == after(out@, unescape_from(text, i - from)),
        decreases n - i,
    {
        let ghost before = out@;
        let c = chars[i];
        assert(text[i - from] == c);
        if c != '%' {
            out.push(c);
            proof {
                match unescape_from(text, i - from + 1) {
                    Ok(t) => assert(before + (seq![c] + t) =~= out@ + t),
                    Err(_) => {},
                }
            }
            i += 1;
        } else {
            if n - i < 2 {
                return Err(FormatError::TruncatedEscape);
            }
            assert(text[i - from + 1] == chars@[i + 1]);
            let high = match hex_digit_value(chars[i + 1]) {
                Ok(v) => v,
                Err(e) => {
                    return Err(e);
                },
            };
            if n - i < 3 {
                return Err(FormatError::TruncatedEscape);
            }
            assert(text[i - from + 2] == chars@[i + 2]);
            let low = match hex_digit_value(chars[i + 2]) {
                Ok(v) => v,
                Err(e) => {
                    return Err(e);
                },
            };
            let num: u32 = 16 * high + low;
            let decoded = (num as u8) as char;
            out.push(decoded);
            proof {
                match unescape_from(text, i - from + 3) {
                    Ok(t) => assert(before + (seq![decoded] + t) =~= out@ + t),
                    Err(_) => {},
                }
            }
            i += 3;
        }
    }
    assert(out@ + Seq::<char>::empty() =~= out@);
    Ok(out)
}

/// Decodes the `%` escapes of `text`. Fails on the first character after a
/// `%` that is no hexadecimal digit, and where the text ends inside an escape.
pub fn unescape_percent(text: &str) -> (r: Result<String, FormatError>)
    ensures
        match r {
            Ok(t) => unescape_text(text@) == Ok::<Seq<char>, FormatError>(t@),
            Err(e) => unescape_text(text@) == Err::<Seq<char>, FormatError>(e),
        },
{
    let chars = to_chars(text);
    assert(chars@.skip(0) =~= chars@);
    match unescape_chars(&chars, 0) {
        Ok(out) => Ok(from_chars(&out)),
        Err(e) => Err(e),
    }
}

/// Text without a `%` decodes to itself.
pub proof fn lemma_unescape_plain(s: Seq<char>)
    requires
        !s.contains('%'),
    ensures
        unescape_text(s) == Ok::<Seq<char>, FormatError>(s),
{
    lemma_unescape_plain_from(s, 0);
    assert(s.skip(0) =~= s);
}

/// Text without a `%` decodes, from any position, to what follows it.
proof fn lemma_unescape_plain_from(s: Seq<char>, i: int)
    requires
        !s.contains('%'),
        0 <= i <= s.len(),
    ensures
        unescape_from(s, i) == Ok::<Seq<char>, FormatError>(s.skip(i)),
    decreases s.len() - i,
{
    if i < s.len() {
        assert(s.contains(s[i]));
        lemma_unescape_plain_from(s, i + 1);
        assert(seq![s[i]] + s.skip(i + 1) =~= s.skip(i));
    } else {
        assert(s.skip(i) =~= Seq::<char>::empty());
    }
}

} // verus!
