//! Conversions between strings and character sequences, and small text
//! utilities shared by the other modules.
//!
//! Every specification in this crate speaks of text as a `Seq<char>`; the
//! executable code works on `Vec<char>` and converts at the public boundary.

use vstd::prelude::*;

verus! {

/// The characters of `s`, in order.
pub fn to_chars(s: &str) -> (v: Vec<char>)
    ensures
        v@ == s@,
{
    let mut v: Vec<char> = Vec::new();
    for c in it: s.chars()
        invariant
            v@ == it.seq().take(it.index()),
            it.seq() == s@,
    {
        v.push(c);
    }
    v
}

/// Appends `c` to `s`. This wraps `String::push` of the standard library and
/// is believed, not proved: it says that the call puts exactly the character
/// `c` after the characters the string held, and changes none of those.
#[verifier::external_body]
fn push_char(s: &mut String, c: char)
    ensures
        final(s)@ == old(s)@.push(c),
{
    s.push(c)
}

/// The string whose characters are `v[from..to]`.
pub(crate) fn from_char_range(v: &Vec<char>, from: usize, to: usize) -> (s: String)
    requires
        from <= to <= v.len(),
    ensures
        s@ == v@.subrange(from as int, to as int),
{
    let mut s = String::new();
    let mut i: usize = from;
    while i < to
        invariant
            from <= i <= to <= v.len(),
            s@ == v@.subrange(from as int, i as int),
        decreases to - i,
    {
        push_char(&mut s, v[i]);
        i += 1;
    }
    s
}

/// The string whose characters are those of `v`.
pub fn from_chars(v: &Vec<char>) -> (s: String)
    ensures
        s@ == v@,
{
    let s = from_char_range(v, 0, v.len());
    assert(v@.subrange(0, v@.len() as int) == v@);
    s
}

/// Appends the characters of `s` to `out`.
pub fn write_str(out: &mut Vec<char>, s: &str)
    ensures
        final(out)@ == old(out)@ + s@,
{
    let ghost before = out@;
    for c in it: s.chars()
        invariant
            out@ == before + it.seq().take(it.index()),
            it.seq() == s@,
    {
        out.push(c);
    }
}

/// Appends the characters of `v` to `out`.
pub fn write_chars(out: &mut Vec<char>, v: &Vec<char>)
    ensures
        final(out)@ == old(out)@ + v@,
{
    let ghost before = out@;
    let mut i: usize = 0;
    while i < v.len()
        invariant
            i <= v.len(),
            out@ == before + v@.take(i as int),
        decreases v.len() - i,
    {
        out.push(v[i]);
        i += 1;
    }
    assert(v@.take(v@.len() as int) == v@);
}

/// `n` copies of `c`.
pub open spec fn repeated(c: char, n: nat) -> Seq<char> {
    Seq::new(n, |i: int| c)
}

/// Appends `n` copies of `c` to `out`.
pub fn write_repeated(out: &mut Vec<char>, c: char, n: usize)
    ensures
        final(out)@ == old(out)@ + repeated(c, n as nat),
{
    let ghost before = out@;
    let mut i: usize = 0;
    while i < n
        invariant
            i <= n,
            out@ == before + repeated(c, i as nat),
        decreases n - i,
    {
        out.push(c);
        i += 1;
    }
}

/// Whether position `i` of `s` exists and holds `c`.
pub open spec fn at(s: Seq<char>, i: int, c: char) -> bool {
    0 <= i < s.len() && s[i] == c
}

/// Executable form of [`at`].
pub fn is_at(s: &Vec<char>, i: usize, c: char) -> (b: bool)
    ensures
        b == at(s@, i as int, c),
{
    i < s.len() && s[i] == c
}


/// Appends the characters `v[from..to]` to `out`.
pub(crate) fn write_range(out: &mut Vec<char>, v: &Vec<char>, from: usize, to: usize)
    requires
        from <= to <= v.len(),
    ensures
        final(out)@ == old(out)@ + v@.subrange(from as int, to as int),
{
    let ghost before = out@;
    let mut i: usize = from;
    while i < to
        invariant
            from <= i <= to <= v.len(),
            out@ == before + v@.subrange(from as int, i as int),
        decreases to - i,
    {
        out.push(v[i]);
        i += 1;
    }
}

/// Whether `c` is one of the ten decimal digits.
pub open spec fn is_digit(c: char) -> bool {
    '0' <= c <= '9'
}

/// The value of the decimal digit `c`.
pub open spec fn digit_value(c: char) -> nat
    recommends
        is_digit(c),
{
    (c as int - '0' as int) as nat
}

/// Whether every character of `s` is a decimal digit.
pub open spec fn all_digits(s: Seq<char>) -> bool {
    forall|i: int| 0 <= i < s.len() ==> is_digit(#[trigger] s[i])
}

/// The number that the decimal digits `s` write; 0 for no digits.
pub open spec fn decimal_value(s: Seq<char>) -> nat
    decreases s.len(),
{
    if s.len() == 0 {
        0
    } else {
        decimal_value(s.drop_last()) * 10 + digit_value(s.last())
    }
}

/// Executable form of [`is_digit`].
pub fn is_digit_char(c: char) -> (b: bool)
    ensures
        b == is_digit(c),
{
    '0' <= c && c <= '9'
}

/// The value of the decimal digit `c`.
pub(crate) fn digit_of(c: char) -> (d: u32)
    requires
        is_digit(c),
    ensures
        d == digit_value(c),
        d <= 9,
{
    (c as u32) - ('0' as u32)
}

/// More digits never write a smaller number.
pub proof fn lemma_decimal_value_grows(s: Seq<char>, n: int)
    requires
        0 <= n <= s.len(),
    ensures
        decimal_value(s.take(n)) <= decimal_value(s),
    decreases s.len() - n,
{
    if n < s.len() {
        lemma_decimal_value_grows(s, n + 1);
        assert(s.take(n + 1).drop_last() =~= s.take(n));
    } else {
        assert(s.take(n) =~= s);
    }
}

/// The number written by the digits `v[from..to]`, where it fits 32 bits.
pub(crate) fn decimal_of_range(v: &Vec<char>, from: usize, to: usize) -> (r: Option<u32>)
    requires
        from <= to <= v.len(),
        all_digits(v@.subrange(from as int, to as int)),
    ensures
        r == (if decimal_value(v@.subrange(from as int, to as int)) <= u32::MAX {
            Some(decimal_value(v@.subrange(from as int, to as int)) as u32)
        } else {
            None
        }),
{
    let ghost digits = v@.subrange(from as int, to as int);
    let mut acc: u32 = 0;
    let mut i: usize = from;
    assert(digits.take(0) =~= Seq::<char>::empty());
    while i < to
        invariant
            from <= i <= to <= v.len(),
            digits == v@.subrange(from as int, to as int),
            all_digits(digits),
            acc == decimal_value(digits.take(i - from)),
        decreases to - i,
    {
        assert(digits[i - from] == v@[i as int]);
        let d = digit_of(v[i]);
        proof {
            assert(digits.take(i - from + 1).drop_last() =~= digits.take(i - from));
            assert(digits.take(i - from + 1).last() == v@[i as int]);
            lemma_decimal_value_grows(digits, i - from + 1);
        }
        if acc > (u32::MAX - d) / 10 {
            return None;
        }
        acc = acc * 10 + d;
        i += 1;
    }
    assert(digits.take(to - from) =~= digits);
    Some(acc)
}


/// The character that writes the digit `d`.
pub open spec fn digit_char(d: nat) -> char
    recommends
        d < 10,
{
    ('0' as int + d) as char
}

/// The decimal digits of `n`, most significant first, without leading zeros.
pub open spec fn decimal_text(n: nat) -> Seq<char>
    decreases n,
{
    if n < 10 {
        seq![digit_char(n)]
    } else {
        decimal_text(n / 10).push(digit_char(n % 10))
    }
}

/// Appends the decimal digits of `n` to `out`.
pub fn write_decimal(out: &mut Vec<char>, n: u32)
    ensures
        final(out)@ == old(out)@ + decimal_text(n as nat),
    decreases n,
{
    if n >= 10 {
        write_decimal(out, n / 10);
    }
    let d: u8 = (n % 10) as u8;
    out.push((48u8 + d) as char);
}


/// Whether the text `p` stands in `s` at position `i`.
pub open spec fn occurs_at(s: Seq<char>, i: int, p: Seq<char>) -> bool {
    0 <= i && i + p.len() <= s.len() && s.subrange(i, i + p.len()) == p
}

/// Executable form of [`occurs_at`].
pub fn matches_at(s: &Vec<char>, i: usize, p: &Vec<char>) -> (b: bool)
    ensures
        b == occurs_at(s@, i as int, p@),
{
    if i > s.len() || s.len() - i < p.len() {
        return false;
    }
    let mut k: usize = 0;
    while k < p.len()
        invariant
            k <= p.len(),
            i + p.len() <= s.len(),
            s@.subrange(i as int, i + k) == p@.take(k as int),
        decreases p.len() - k,
    {
        if s[i + k] != p[k] {
            assert(s@.subrange(i as int, i + p.len())[k as int] != p@[k as int]);
            return false;
        }
        assert(s@.subrange(i as int, i + k + 1) =~= s@.subrange(i as int, i + k).push(
            s@[i + k],
        ));
        assert(p@.take(k + 1) =~= p@.take(k as int).push(p@[k as int]));
        k += 1;
    }
    assert(p@.take(p@.len() as int) =~= p@);
    true
}

/// The first position from `i` on where the text `p` stands in `s`.
pub open spec fn find_text(s: Seq<char>, i: int, p: Seq<char>) -> Option<int>
    decreases s.len() - i + 1,
{
    if i < 0 || i + p.len() > s.len() {
        None
    } else if occurs_at(s, i, p) {
        Some(i)
    } else {
        find_text(s, i + 1, p)
    }
}

/// A text found from `i` on stands at or after `i` and ends inside `s`.
pub proof fn lemma_find_text(s: Seq<char>, i: int, p: Seq<char>)
    ensures
        find_text(s, i, p) matches Some(k) ==> i <= k && k + p.len() <= s.len() && occurs_at(
            s,
            k,
            p,
        ),
    decreases s.len() - i + 1,
{
    if !(i < 0 || i + p.len() > s.len()) && !occurs_at(s, i, p) {
        lemma_find_text(s, i + 1, p);
    }
}

/// The first position from `i` on where the text `p` stands in `s`.
pub fn find(s: &Vec<char>, i: usize, p: &Vec<char>) -> (r: Option<usize>)
    ensures
        match r {
            Some(k) => find_text(s@, i as int, p@) == Some(k as int) && i <= k && k + p.len()
                <= s.len(),
            None => find_text(s@, i as int, p@) is None,
        },
{
    if i > s.len() || s.len() - i < p.len() {
        return None;
    }
    if p.len() == 0 {
        assert(s@.subrange(i as int, i as int) =~= p@);
        return Some(i);
    }
    let last = s.len() - p.len();
    let mut k: usize = i;
    while k <= last
        invariant
            i <= k <= last + 1,
            p.len() > 0,
            last == s.len() - p.len(),
            find_text(s@, i as int, p@) == find_text(s@, k as int, p@),
        decreases last + 1 - k,
    {
        if matches_at(s, k, p) {
            return Some(k);
        }
        k += 1;
    }
    None
}

/// The pieces of `s` from position `i` on that lie between the occurrences
/// of the separator `p`, found from left to right without overlap. There is
/// always at least one piece; a piece may be empty. An empty separator parts
/// nothing.
pub open spec fn split_from(s: Seq<char>, i: int, p: Seq<char>) -> Seq<Seq<char>>
    decreases s.len() - i,
{
    match find_text(s, i, p) {
        Some(k) => if p.len() > 0 {
            proof {
                lemma_find_text(s, i, p);
            }
            seq![s.subrange(i, k)] + split_from(s, k + p.len(), p)
        } else {
            seq![s.subrange(i, s.len() as int)]
        },
        None => seq![s.subrange(i, s.len() as int)],
    }
}

/// The pieces of `s` between the occurrences of the separator `p`.
pub open spec fn split_text(s: Seq<char>, p: Seq<char>) -> Seq<Seq<char>> {
    split_from(s, 0, p)
}

/// The texts of a sequence of character vectors, element by element.
pub open spec fn texts(parts: Seq<Vec<char>>) -> Seq<Seq<char>> {
    parts.map_values(|v: Vec<char>| v@)
}

/// Cuts `s` at every occurrence of the separator `p`. An empty separator
/// cuts nowhere.
pub fn split(s: &Vec<char>, p: &Vec<char>) -> (parts: Vec<Vec<char>>)
    ensures
        texts(parts@) == split_text(s@, p@),
        parts.len() > 0,
{
    let mut parts: Vec<Vec<char>> = Vec::new();
    if p.len() == 0 {
        let mut whole: Vec<char> = Vec::new();
        write_range(&mut whole, s, 0, s.len());
        parts.push(whole);
        proof {
            assert(s@.subrange(0, 0) =~= p@);
            assert(texts(parts@) =~= seq![s@.subrange(0, s@.len() as int)]);
        }
        return parts;
    }
    let mut i: usize = 0;
    let mut more = true;
    assert(texts(parts@) + split_from(s@, 0, p@) =~= split_from(s@, 0, p@));
    while more
        invariant
            i <= s.len(),
            p.len() > 0,
            more ==> split_text(s@, p@) == texts(parts@) + split_from(s@, i as int, p@),
            !more ==> split_text(s@, p@) == texts(parts@) && parts.len() > 0,
        decreases s.len() - i, more as int,
    {
        let ghost before = parts@;
        let mut piece: Vec<char> = Vec::new();
        match find(s, i, p) {
            Some(k) => {
                write_range(&mut piece, s, i, k);
                assert(piece@ =~= s@.subrange(i as int, k as int));
                parts.push(piece);
                assert(texts(parts@) =~= texts(before).push(s@.subrange(i as int, k as int)));
                assert(texts(before) + (seq![s@.subrange(i as int, k as int)] + split_from(
                    s@,
                    k + p.len(),
                    p@,
                )) =~= texts(parts@) + split_from(s@, k + p.len(), p@));
                i = k + p.len();
            },
            None => {
                write_range(&mut piece, s, i, s.len());
                assert(piece@ =~= s@.subrange(i as int, s.len() as int));
                parts.push(piece);
                assert(texts(parts@) =~= texts(before) + seq![
                    s@.subrange(i as int, s.len() as int),
                ]);
                more = false;
            },
        }
    }
    parts
}

/// Whether `c` is white space as Unicode defines it: a tab, a line break, a
/// space, or one of the other blank characters.
pub open spec fn is_space(c: char) -> bool {
    let n = c as u32;
    (0x09 <= n <= 0x0d) || n == 0x20 || n == 0x85 || n == 0xa0 || n == 0x1680 || (0x2000 <= n
        <= 0x200a) || n == 0x2028 || n == 0x2029 || n == 0x202f || n == 0x205f || n == 0x3000
}

/// Executable form of [`is_space`].
pub fn is_space_char(c: char) -> (b: bool)
    ensures
        b == is_space(c),
{
    let n = c as u32;
    (0x09 <= n && n <= 0x0d) || n == 0x20 || n == 0x85 || n == 0xa0 || n == 0x1680 || (0x2000
        <= n && n <= 0x200a) || n == 0x2028 || n == 0x2029 || n == 0x202f || n == 0x205f || n
        == 0x3000
}

/// The position of the first character from `i` on that is no white space;
/// the length of `s` where there is none.
pub open spec fn leading_end(s: Seq<char>, i: int) -> int
    decreases s.len() - i,
{
    if 0 <= i < s.len() && is_space(s[i]) {
        leading_end(s, i + 1)
    } else {
        i
    }
}

/// The position after the last character before `j`, and not before `from`,
/// that is no white space; `from` where there is none.
pub open spec fn trailing_start(s: Seq<char>, from: int, j: int) -> int
    decreases j,
{
    if 0 <= from < j <= s.len() && is_space(s[j - 1]) {
        trailing_start(s, from, j - 1)
    } else {
        j
    }
}

/// `s` without the white space at its start and at its end.
pub open spec fn trimmed(s: Seq<char>) -> Seq<char> {
    s.subrange(leading_end(s, 0), trailing_start(s, leading_end(s, 0), s.len() as int))
}

/// The characters of `s` without the white space at its start and its end.
pub fn trim(s: &Vec<char>) -> (r: Vec<char>)
    ensures
        r@ == trimmed(s@),
{
    let mut a: usize = 0;
    while a < s.len() && is_space_char(s[a])
        invariant
            a <= s.len(),
            leading_end(s@, 0) == leading_end(s@, a as int),
        decreases s.len() - a,
    {
        a += 1;
    }
    let mut b: usize = s.len();
    while a < b && is_space_char(s[b - 1])
        invariant
            a <= b <= s.len(),
            trailing_start(s@, a as int, s.len() as int) == trailing_start(s@, a as int, b as int),
        decreases b,
    {
        b -= 1;
    }
    let mut r: Vec<char> = Vec::new();
    write_range(&mut r, s, a, b);
    assert(r@ =~= s@.subrange(a as int, b as int));
    r
}

/// The number that `s` writes: decimal digits, at least one, after an
/// optional `+`, where the number fits 32 bits.
pub open spec fn number_of(s: Seq<char>) -> Option<u32> {
    let digits = if s.len() > 0 && s[0] == '+' {
        s.skip(1)
    } else {
        s
    };
    if digits.len() > 0 && all_digits(digits) && decimal_value(digits) <= u32::MAX {
        Some(decimal_value(digits) as u32)
    } else {
        None
    }
}

/// Reads the number that `s` writes.
pub fn parse_number(s: &Vec<char>) -> (r: Option<u32>)
    ensures
        r == number_of(s@),
{
    let from: usize = if s.len() > 0 && s[0] == '+' {
        1
    } else {
        0
    };
    let ghost digits = if s@.len() > 0 && s@[0] == '+' {
        s@.skip(1)
    } else {
        s@
    };
    assert(digits =~= s@.subrange(from as int, s.len() as int));
    if from == s.len() {
        return None;
    }
    let mut i: usize = from;
    while i < s.len()
        invariant
            from <= i <= s.len(),
            digits == s@.subrange(from as int, s.len() as int),
            digits == (if s@.len() > 0 && s@[0] == '+' {
                s@.skip(1)
            } else {
                s@
            }),
            forall|k: int| 0 <= k < i - from ==> is_digit(#[trigger] digits[k]),
        decreases s.len() - i,
    {
        if !is_digit_char(s[i]) {
            assert(!is_digit(digits[i - from]));
            return None;
        }
        i += 1;
    }
    decimal_of_range(s, from, s.len())
}

} // verus!
