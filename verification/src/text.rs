//! Text as sequences of characters: comparison, search, trimming, number
//! rendering and number parsing.

use vstd::prelude::*;

use crate::wire::same_bytes;

verus! {

/// `String::push`: appends one character to the end of the string.
pub assume_specification[ String::push ](s: &mut String, ch: char)
    ensures
        final(s)@ == old(s)@.push(ch),
;

/// The Unicode White_Space property: the 25 characters that PropList.txt lists.
pub open spec fn white_space(c: char) -> bool {
    let n = c as int;
    ||| 0x0009 <= n <= 0x000D
    ||| n == 0x0020
    ||| n == 0x0085
    ||| n == 0x00A0
    ||| n == 0x1680
    ||| 0x2000 <= n <= 0x200A
    ||| n == 0x2028
    ||| n == 0x2029
    ||| n == 0x202F
    ||| n == 0x205F
    ||| n == 0x3000
}

/// `char::is_whitespace`: whether a character has the White_Space property.
pub assume_specification[ char::is_whitespace ](c: char) -> (r: bool)
    ensures
        r == white_space(c),
;

/// The lowercase form of a text, as `str::to_lowercase` gives it.
pub uninterp spec fn lowercased(s: Seq<char>) -> Seq<char>;

/// `str::to_lowercase`: the lowercase equivalent under the Unicode Derived
/// Core Property Lowercase, a function of the text alone.
#[verifier::external_body]
pub(crate) fn lowercase(s: &str) -> (r: String)
    ensures
        r@ == lowercased(s@),
{
    s.to_lowercase()
}

/// Whether two texts are the same.
pub fn same_text(a: &str, b: &str) -> (r: bool)
    ensures
        r == (a@ == b@),
{
    proof {
        vstd::utf8::encode_utf8_decode_utf8(a@);
        vstd::utf8::encode_utf8_decode_utf8(b@);
    }
    same_bytes(a.as_bytes(), b.as_bytes())
}

/// The characters of a text.
pub fn chars_of(s: &str) -> (out: Vec<char>)
    ensures
        out@ == s@,
{
    let mut out: Vec<char> = Vec::new();
    let n: usize = s.unicode_len();
    let mut it = s.chars();
    for i in 0..n
        invariant
            n == s@.len(),
            out@ == s@.take(i as int),
            vstd::std_specs::iter::IteratorSpec::remaining(&it) == s@.skip(i as int),
    {
        match it.next() {
            Some(c) => {
                out.push(c);
            },
            None => {},
        }
        assert(s@.skip(i as int).drop_first() =~= s@.skip(i + 1));
        assert(out@ =~= s@.take(i + 1));
    }
    assert(s@.take(n as int) =~= s@);
    out
}

/// The text made of the given characters.
pub fn text_of(chars: &[char]) -> (out: String)
    ensures
        out@ == chars@,
{
    let mut out: String = String::new();
    for i in 0..chars.len()
        invariant
            out@ == chars@.take(i as int),
    {
        out.push(chars[i]);
        assert(out@ =~= chars@.take(i + 1));
    }
    assert(chars@.take(chars@.len() as int) =~= chars@);
    out
}

// ---------------------------------------------------------------- numbers

/// The digit character for `d`.
pub open spec fn digit(d: nat, upper: bool) -> char {
    if d < 10 {
        (48 + d) as char
    } else if upper {
        (55 + d) as char
    } else {
        (87 + d) as char
    }
}

/// `n` in the given base, without leading zeros.
pub open spec fn digits(n: nat, base: nat, upper: bool) -> Seq<char>
    decreases n,
{
    if n < base || base < 2 {
        seq![digit(n, upper)]
    } else {
        proof {
            assert(n / base < n) by (nonlinear_arith)
                requires
                    2 <= base <= n,
            ;
        }
        digits(n / base, base, upper).push(digit(n % base, upper))
    }
}

/// `n` in decimal.
pub open spec fn dec(n: nat) -> Seq<char> {
    digits(n, 10, false)
}

/// `s` with zeros in front up to `width` characters.
pub open spec fn zero_padded(s: Seq<char>, width: nat) -> Seq<char> {
    if s.len() >= width {
        s
    } else {
        Seq::new((width - s.len()) as nat, |i: int| '0') + s
    }
}

/// `n` in upper-case hexadecimal, at least `width` digits.
pub open spec fn hex_upper(n: nat, width: nat) -> Seq<char> {
    zero_padded(digits(n, 16, true), width)
}

/// `n` in lower-case hexadecimal, at least `width` digits.
pub open spec fn hex_lower(n: nat, width: nat) -> Seq<char> {
    zero_padded(digits(n, 16, false), width)
}

fn digit_char(d: u64, upper: bool) -> (c: char)
    requires
        d < 16,
    ensures
        c == digit(d as nat, upper),
{
    if d < 10 {
        (48 + d as u8) as char
    } else if upper {
        (55 + d as u8) as char
    } else {
        (87 + d as u8) as char
    }
}

fn digit_chars(n: u64, base: u64, upper: bool) -> (out: Vec<char>)
    requires
        2 <= base <= 16,
    ensures
        out@ == digits(n as nat, base as nat, upper),
    decreases n,
{
    if n < base {
        let mut out: Vec<char> = Vec::new();
        out.push(digit_char(n, upper));
        assert(out@ =~= digits(n as nat, base as nat, upper));
        out
    } else {
        assert(n / base < n) by (nonlinear_arith)
            requires
                2 <= base <= n,
        ;
        assert(n % base < base) by (nonlinear_arith)
            requires
                2 <= base,
        ;
        let mut out = digit_chars(n / base, base, upper);
        out.push(digit_char(n % base, upper));
        out
    }
}

fn push_chars(out: &mut String, chars: &[char])
    ensures
        final(out)@ == old(out)@ + chars@,
{
    for i in 0..chars.len()
        invariant
            out@ == old(out)@ + chars@.take(i as int),
    {
        out.push(chars[i]);
        assert(out@ =~= old(out)@ + chars@.take(i + 1));
    }
    assert(chars@.take(chars@.len() as int) =~= chars@);
}

/// Append `n` in decimal.
pub fn push_dec(out: &mut String, n: u64)
    ensures
        final(out)@ == old(out)@ + dec(n as nat),
{
    let d = digit_chars(n, 10, false);
    push_chars(out, d.as_slice());
}

/// Append `n` in hexadecimal, zero-padded to `width` digits.
pub fn push_hex(out: &mut String, n: u64, width: usize, upper: bool)
    ensures
        final(out)@ == old(out)@ + zero_padded(digits(n as nat, 16, upper), width as nat),
{
    let d = digit_chars(n, 16, upper);
    if d.len() < width {
        for i in 0..width - d.len()
            invariant
                out@ == old(out)@ + Seq::new(i as nat, |j: int| '0'),
        {
            out.push('0');
            assert(out@ =~= old(out)@ + Seq::new((i + 1) as nat, |j: int| '0'));
        }
    }
    let ghost padded = out@;
    push_chars(out, d.as_slice());
    assert(out@ =~= old(out)@ + zero_padded(digits(n as nat, 16, upper), width as nat));
}

/// The value of a digit character in the given base.
pub open spec fn digit_value(c: char, base: nat) -> Option<nat> {
    let v = if '0' <= c <= '9' {
        (c as nat - 48) as nat
    } else if 'a' <= c <= 'z' {
        (c as nat - 87) as nat
    } else if 'A' <= c <= 'Z' {
        (c as nat - 55) as nat
    } else {
        base
    };
    if v < base {
        Some(v)
    } else {
        None
    }
}

/// The value of a run of digits; None when a character is no digit.
pub open spec fn digits_value(s: Seq<char>, base: nat) -> Option<nat>
    decreases s.len(),
{
    if s.len() == 0 {
        Some(0)
    } else {
        match (digits_value(s.drop_last(), base), digit_value(s.last(), base)) {
            (Some(v), Some(d)) => Some(v * base + d),
            _ => None,
        }
    }
}

/// What an unsigned integer with the given maximum parses to: an optional plus
/// sign followed by one or more digits, and nothing else.
pub open spec fn unsigned_value(s: Seq<char>, base: nat, max: nat) -> Option<nat> {
    let d = if s.len() > 0 && s[0] == '+' {
        s.skip(1)
    } else {
        s
    };
    if d.len() == 0 {
        None
    } else {
        match digits_value(d, base) {
            Some(v) if v <= max => Some(v),
            _ => None,
        }
    }
}

/// More digits never make a number smaller.
proof fn digits_value_grows(s: Seq<char>, k: int, base: nat)
    requires
        0 <= k <= s.len(),
        base >= 1,
    ensures
        digits_value(s.take(k), base) is None ==> digits_value(s, base) is None,
        match (digits_value(s.take(k), base), digits_value(s, base)) {
            (Some(a), Some(b)) => a <= b,
            _ => true,
        },
    decreases s.len() - k,
{
    if k < s.len() {
        digits_value_grows(s, k + 1, base);
        let t = s.take(k + 1);
        assert(t.drop_last() =~= s.take(k));
        match digits_value(s.take(k), base) {
            Some(a) => {
                assert(a <= a * base) by (nonlinear_arith)
                    requires
                        base >= 1,
                        a >= 0,
                ;
            },
            None => {},
        }
    } else {
        assert(s.take(k) =~= s);
    }
}

fn value_of_digit(c: char, base: u64) -> (r: Option<u64>)
    requires
        2 <= base <= 36,
    ensures
        match r {
            Some(v) => digit_value(c, base as nat) == Some(v as nat) && v < base,
            None => digit_value(c, base as nat) is None,
        },
{
    let v: u64 = if '0' <= c && c <= '9' {
        c as u64 - 48
    } else if 'a' <= c && c <= 'z' {
        c as u64 - 87
    } else if 'A' <= c && c <= 'Z' {
        c as u64 - 55
    } else {
        base
    };
    if v < base {
        Some(v)
    } else {
        None
    }
}

/// Parse an unsigned integer of at most `max`.
pub fn parse_unsigned(s: &[char], base: u64, max: u64) -> (r: Option<u64>)
    requires
        2 <= base <= 36,
        max <= u32::MAX,
    ensures
        match r {
            Some(v) => unsigned_value(s@, base as nat, max as nat) == Some(v as nat) && v <= max,
            None => unsigned_value(s@, base as nat, max as nat) is None,
        },
{
    let start: usize = if s.len() > 0 && s[0] == '+' {
        1
    } else {
        0
    };
    let ghost d = s@.skip(start as int);
    assert(s@.skip(0) =~= s@);
    if s.len() == start {
        return None;
    }
    let mut acc: u64 = 0;
    for i in start..s.len()
        invariant
            start <= 1,
            d == s@.skip(start as int),
            2 <= base <= 36,
            acc <= max <= u32::MAX,
            digits_value(d.take(i - start), base as nat) == Some(acc as nat),
            d.len() > 0,
            unsigned_value(s@, base as nat, max as nat) == (match digits_value(d, base as nat) {
                Some(v) if v <= max => Some(v),
                _ => None,
            }),
    {
        proof {
            assert(d.take(i - start + 1).drop_last() =~= d.take(i - start));
            assert(d.take(i - start + 1).last() == s@[i as int]);
            digits_value_grows(d, i - start + 1, base as nat);
            assert(acc * base <= u32::MAX * 36) by (nonlinear_arith)
                requires
                    acc <= u32::MAX,
                    base <= 36,
            ;
        }
        match value_of_digit(s[i], base) {
            None => {
                return None;
            },
            Some(v) => {
                acc = acc * base + v;
                if acc > max {
                    return None;
                }
            },
        }
    }
    assert(d.take(d.len() as int) =~= d);
    Some(acc)
}

/// `s` without any number of leading copies of the two characters `a`, `b`.
pub open spec fn without_prefixes(s: Seq<char>, a: char, b: char) -> Seq<char>
    decreases s.len(),
{
    if s.len() >= 2 && s[0] == a && s[1] == b {
        without_prefixes(s.skip(2), a, b)
    } else {
        s
    }
}

/// A number's text without its hexadecimal prefixes ("0x" first, then "0X").
pub open spec fn without_hex_prefix(s: Seq<char>) -> Seq<char> {
    without_prefixes(without_prefixes(s, '0', 'x'), '0', 'X')
}

fn skip_prefixes(s: &[char], from: usize, a: char, b: char) -> (at: usize)
    requires
        from <= s@.len(),
    ensures
        from <= at <= s@.len(),
        s@.skip(at as int) == without_prefixes(s@.skip(from as int), a, b),
{
    let mut at: usize = from;
    while s.len() - at >= 2 && s[at] == a && s[at + 1] == b
        invariant
            from <= at <= s@.len(),
            without_prefixes(s@.skip(at as int), a, b) == without_prefixes(
                s@.skip(from as int),
                a,
                b,
            ),
        decreases s@.len() - at,
    {
        assert(s@.skip(at as int).skip(2) =~= s@.skip(at + 2));
        at = at + 2;
    }
    at
}

/// The characters of a number's text behind its hexadecimal prefixes.
pub fn strip_hex_prefix(s: &str) -> (out: Vec<char>)
    ensures
        out@ == without_hex_prefix(s@),
{
    let chars = chars_of(s);
    let a: usize = skip_prefixes(chars.as_slice(), 0, '0', 'x');
    let b: usize = skip_prefixes(chars.as_slice(), a, '0', 'X');
    assert(chars@.skip(0) =~= chars@);
    let rest = vstd::slice::slice_subrange(chars.as_slice(), b, chars.len());
    assert(rest@ =~= chars@.skip(b as int));
    vstd::slice::slice_to_vec(rest)
}

/// The 32-bit value that hexadecimal text, prefixed or not, stands for.
pub open spec fn hex_u32_value(s: Seq<char>) -> Option<u32> {
    match unsigned_value(without_hex_prefix(s), 16, u32::MAX as nat) {
        Some(v) => Some(v as u32),
        None => None,
    }
}

/// Parse 32-bit hexadecimal text, prefixed or not.
pub fn parse_hex_u32(s: &str) -> (r: Option<u32>)
    ensures
        r == hex_u32_value(s@),
{
    let rest = strip_hex_prefix(s);
    match parse_unsigned(rest.as_slice(), 16, u32::MAX as u64) {
        Some(v) => Some(v as u32),
        None => None,
    }
}

// ----------------------------------------------------------------- search

/// Whether `needle` occurs in `hay` at position `at`.
pub open spec fn occurs_at(hay: Seq<char>, needle: Seq<char>, at: int) -> bool {
    &&& 0 <= at
    &&& at + needle.len() <= hay.len()
    &&& hay.subrange(at, at + needle.len()) == needle
}

/// Whether `needle` occurs in `hay`.
pub open spec fn occurs_in(hay: Seq<char>, needle: Seq<char>) -> bool {
    exists|at: int| occurs_at(hay, needle, at)
}

fn occurs_here(hay: &[char], needle: &[char], at: usize) -> (r: bool)
    requires
        at + needle@.len() <= hay@.len(),
    ensures
        r == occurs_at(hay@, needle@, at as int),
{
    assert(at + needle.len() <= hay.len());
    for i in 0..needle.len()
        invariant
            at + needle.len() <= hay.len(),
            forall|j: int| 0 <= j < i ==> hay@[at + j] == needle@[j],
    {
        if hay[at + i] != needle[i] {
            assert(hay@.subrange(at as int, at + needle@.len())[i as int] != needle@[i as int]);
            return false;
        }
    }
    assert(hay@.subrange(at as int, at + needle@.len()) =~= needle@);
    true
}

/// Whether `needle` occurs in `hay`.
pub fn contains_text(hay: &str, needle: &str) -> (r: bool)
    ensures
        r == occurs_in(hay@, needle@),
{
    let h = chars_of(hay);
    let n = chars_of(needle);
    if n.len() == 0 {
        assert(hay@.subrange(0, 0) =~= needle@);
        assert(occurs_at(hay@, needle@, 0));
        return true;
    }
    if n.len() > h.len() {
        return false;
    }
    for at in 0..h.len() - n.len() + 1
        invariant
            h@ == hay@,
            n@ == needle@,
            1 <= n@.len() <= h@.len(),
            forall|j: int| 0 <= j < at ==> !occurs_at(hay@, needle@, j),
    {
        if occurs_here(h.as_slice(), n.as_slice(), at) {
            return true;
        }
    }
    false
}

/// Whether `prefix` stands at the front of `s`.
pub open spec fn has_prefix(s: Seq<char>, prefix: Seq<char>) -> bool {
    occurs_at(s, prefix, 0)
}

/// Whether `prefix` stands at the front of `s`.
pub fn starts_with_text(s: &str, prefix: &str) -> (r: bool)
    ensures
        r == has_prefix(s@, prefix@),
{
    let h = chars_of(s);
    let n = chars_of(prefix);
    if n.len() > h.len() {
        return false;
    }
    occurs_here(h.as_slice(), n.as_slice(), 0)
}

/// The part of `s` before the first `c`; all of it when `c` does not occur.
pub open spec fn before(s: Seq<char>, c: char) -> Seq<char>
    decreases s.len(),
{
    if s.len() == 0 || s[0] == c {
        Seq::empty()
    } else {
        seq![s[0]] + before(s.skip(1), c)
    }
}

/// `s` without leading white space.
pub open spec fn trimmed_front(s: Seq<char>) -> Seq<char>
    decreases s.len(),
{
    if s.len() > 0 && white_space(s[0]) {
        trimmed_front(s.skip(1))
    } else {
        s
    }
}

/// `s` without trailing white space.
pub open spec fn trimmed_back(s: Seq<char>) -> Seq<char>
    decreases s.len(),
{
    if s.len() > 0 && white_space(s.last()) {
        trimmed_back(s.drop_last())
    } else {
        s
    }
}

/// `s` without surrounding white space.
pub open spec fn trimmed(s: Seq<char>) -> Seq<char> {
    trimmed_back(trimmed_front(s))
}

/// The part of `s` before the first `c`.
pub fn text_before(s: &str, c: char) -> (r: String)
    ensures
        r@ == before(s@, c),
{
    let chars = chars_of(s);
    let mut at: usize = 0;
    assert(chars@.skip(0) =~= chars@);
    assert(chars@.take(0) + before(chars@, c) =~= before(chars@, c));
    while at < chars.len() && chars[at] != c
        invariant
            at <= chars@.len(),
            chars@.take(at as int) + before(chars@.skip(at as int), c) == before(chars@, c),
        decreases chars@.len() - at,
    {
        assert(chars@.skip(at as int).skip(1) =~= chars@.skip(at + 1));
        assert(chars@.take(at + 1) =~= chars@.take(at as int) + seq![chars@[at as int]]);
        assert(chars@.take(at + 1) + before(chars@.skip(at + 1), c) =~= chars@.take(at as int) + (
        seq![chars@[at as int]] + before(chars@.skip(at + 1), c)));
        at = at + 1;
    }
    assert(before(chars@.skip(at as int), c) =~= Seq::empty());
    assert(chars@.take(at as int) =~= before(chars@, c));
    let head = vstd::slice::slice_subrange(chars.as_slice(), 0, at);
    assert(head@ =~= chars@.take(at as int));
    text_of(head)
}

/// `s` without surrounding white space.
pub fn trim_text(s: &str) -> (r: String)
    ensures
        r@ == trimmed(s@),
{
    let chars = chars_of(s);
    let mut from: usize = 0;
    assert(chars@.skip(0) =~= chars@);
    while from < chars.len() && chars[from].is_whitespace()
        invariant
            from <= chars@.len(),
            trimmed_front(chars@.skip(from as int)) == trimmed_front(chars@),
        decreases chars@.len() - from,
    {
        assert(chars@.skip(from as int).skip(1) =~= chars@.skip(from + 1));
        from = from + 1;
    }
    let ghost front = chars@.skip(from as int);
    assert(front == trimmed_front(chars@));
    let mut to: usize = chars.len();
    assert(chars@.subrange(from as int, to as int) =~= front);
    while to > from && chars[to - 1].is_whitespace()
        invariant
            from <= to <= chars@.len(),
            trimmed_back(chars@.subrange(from as int, to as int)) == trimmed_back(front),
        decreases to,
    {
        assert(chars@.subrange(from as int, to as int).drop_last() =~= chars@.subrange(
            from as int,
            to - 1,
        ));
        to = to - 1;
    }
    let body = vstd::slice::slice_subrange(chars.as_slice(), from, to);
    text_of(body)
}

// ------------------------------------------------------------------ lists

/// The contents of a list of texts.
pub open spec fn texts(list: Seq<String>) -> Seq<Seq<char>> {
    Seq::new(list.len(), |i: int| list[i]@)
}

/// The texts of a list with a separator between neighbours.
pub open spec fn joined(list: Seq<Seq<char>>, sep: Seq<char>) -> Seq<char>
    decreases list.len(),
{
    if list.len() == 0 {
        Seq::empty()
    } else if list.len() == 1 {
        list[0]
    } else {
        joined(list.drop_last(), sep) + sep + list.last()
    }
}

/// Join texts with a separator between neighbours.
pub fn join_texts(list: &Vec<String>, sep: &str) -> (out: String)
    ensures
        out@ == joined(texts(list@), sep@),
{
    let mut out: String = String::new();
    for i in 0..list.len()
        invariant
            out@ == joined(texts(list@).take(i as int), sep@),
    {
        proof {
            assert(texts(list@).take(i + 1).drop_last() =~= texts(list@).take(i as int));
        }
        if i > 0 {
            out.append(sep);
        }
        out.append(list[i].as_str());
        assert(out@ =~= joined(texts(list@).take(i + 1), sep@));
    }
    assert(texts(list@).take(list@.len() as int) =~= texts(list@));
    out
}

// ------------------------------------------------------------------- laws

/// A digit's value and its character belong together: `c` has the value `d` if and
/// only if it is the lower-case or the upper-case character for `d`.
pub proof fn digits_and_values_agree(c: char, d: nat, base: nat)
    requires
        d < base <= 36,
    ensures
        digit_value(c, base) == Some(d) <==> (c == digit(d, false) || c == digit(d, true)),
{
}

/// A rendered number stands for the number: reading the digits back gives it. It has
/// no leading zero, and every digit is below the base.
pub proof fn digits_read_back(n: nat, base: nat, upper: bool)
    requires
        2 <= base <= 36,
    ensures
        digits_value(digits(n, base, upper), base) == Some(n),
        digits(n, base, upper).len() > 0,
        n > 0 ==> digits(n, base, upper)[0] != '0',
        forall|i: int|
            0 <= i < digits(n, base, upper).len() ==> digit_value(
                #[trigger] digits(n, base, upper)[i],
                base,
            ) is Some,
    decreases n,
{
    let s = digits(n, base, upper);
    if n < base {
        assert(s.drop_last() =~= Seq::empty());
        assert(digits_value(s.drop_last(), base) == Some(0nat));
        digits_and_values_agree(digit(n, upper), n, base);
        assert(0 * base == 0);
    } else {
        assert(n / base < n && n / base > 0 && n % base < base && (n / base) * base + n % base
            == n) by (nonlinear_arith)
            requires
                2 <= base <= n,
        ;
        digits_read_back(n / base, base, upper);
        let front = digits(n / base, base, upper);
        assert(s.drop_last() =~= front);
        digits_and_values_agree(digit(n % base, upper), n % base, base);
        assert(s[0] == front[0]);
        assert forall|i: int| 0 <= i < s.len() implies digit_value(#[trigger] s[i], base)
            is Some by {
            if i < front.len() {
                assert(s[i] == front[i]);
            }
        }
    }
}

/// Two numbers are rendered alike only when they are the same.
pub proof fn decimals_differ(a: nat, b: nat)
    requires
        dec(a) == dec(b),
    ensures
        a == b,
{
    digits_read_back(a, 10, false);
    digits_read_back(b, 10, false);
}

/// Padding with zeros changes no value, and fills up to the width.
pub proof fn padding_keeps_the_value(s: Seq<char>, width: nat, base: nat)
    requires
        base >= 1,
        digits_value(s, base) is Some,
    ensures
        digits_value(zero_padded(s, width), base) == digits_value(s, base),
        zero_padded(s, width).len() == (if s.len() >= width {
            s.len()
        } else {
            width
        }),
{
    if s.len() < width {
        let z = Seq::new((width - s.len()) as nat, |i: int| '0');
        zeros_add_nothing(z, s, base);
    }
}

proof fn zeros_add_nothing(z: Seq<char>, s: Seq<char>, base: nat)
    requires
        base >= 1,
        forall|i: int| 0 <= i < z.len() ==> z[i] == '0',
    ensures
        digits_value(z + s, base) == digits_value(s, base),
    decreases z.len() + s.len(),
{
    if s.len() > 0 {
        zeros_add_nothing(z, s.drop_last(), base);
        assert((z + s).drop_last() =~= z + s.drop_last());
        assert((z + s).last() == s.last());
    } else if z.len() > 0 {
        zeros_add_nothing(z.drop_last(), s, base);
        assert((z + s).drop_last() =~= z.drop_last() + s);
        assert((z + s).last() == '0');
        assert(0 * base == 0);
    }
}

/// Hexadecimal text reads back as the number it was rendered from: of either case,
/// at any width, with the prefix in front or without it.
pub proof fn hex_reads_back(v: u32, width: nat, upper: bool)
    ensures
        hex_u32_value(zero_padded(digits(v as nat, 16, upper), width)) == Some(v),
        hex_u32_value("0x"@ + zero_padded(digits(v as nat, 16, upper), width)) == Some(v),
        hex_u32_value("0X"@ + zero_padded(digits(v as nat, 16, upper), width)) == Some(v),
{
    let d = digits(v as nat, 16, upper);
    let s = zero_padded(d, width);
    digits_read_back(v as nat, 16, upper);
    padding_keeps_the_value(d, width, 16);
    assert forall|i: int| 0 <= i < s.len() implies s[i] != 'x' && s[i] != 'X' && #[trigger] s[i]
        != '+' by {
        if s.len() > d.len() && i >= s.len() - d.len() {
            assert(s[i] == d[i - (s.len() - d.len())]);
        }
        assert(s[i] == '0' || digit_value(s[i], 16) is Some);
    }
    reveal_strlit("0x");
    reveal_strlit("0X");
    let a = "0x"@ + s;
    let b = "0X"@ + s;
    assert(a[0] == '0' && a[1] == 'x' && a.skip(2) =~= s);
    assert(b[0] == '0' && b[1] == 'X' && b.skip(2) =~= s);
    reveal_with_fuel(without_prefixes, 2);
    assert(without_hex_prefix(s) == s);
    assert(without_hex_prefix(a) == s);
    assert(without_hex_prefix(b) == s);
}

/// Text that holds anything but hexadecimal digits behind its prefix and sign is no
/// number.
pub proof fn other_text_is_no_number(s: Seq<char>, base: nat, max: nat, i: int)
    requires
        0 <= i < s.len(),
        digit_value(s[i], base) is None,
        i > 0 || s[0] != '+',
    ensures
        unsigned_value(s, base, max) is None,
{
    let d = if s[0] == '+' {
        s.skip(1)
    } else {
        s
    };
    let k = if s[0] == '+' {
        i - 1
    } else {
        i
    };
    assert(d[k] == s[i]);
    no_digit_no_value(d, base, k);
}

proof fn no_digit_no_value(s: Seq<char>, base: nat, i: int)
    requires
        0 <= i < s.len(),
        digit_value(s[i], base) is None,
    ensures
        digits_value(s, base) is None,
    decreases s.len(),
{
    if i < s.len() - 1 {
        no_digit_no_value(s.drop_last(), base, i);
    }
}

/// What stands before the first `c` holds no `c`, and is all of the text or followed
/// by one.
pub proof fn before_ends_at_the_first(s: Seq<char>, c: char)
    ensures
        !before(s, c).contains(c),
        has_prefix(s, before(s, c)),
        before(s, c).len() < s.len() ==> s[before(s, c).len() as int] == c,
    decreases s.len(),
{
    let b = before(s, c);
    if s.len() > 0 && s[0] != c {
        let rest = s.skip(1);
        before_ends_at_the_first(rest, c);
        let r = before(rest, c);
        assert(b =~= seq![s[0]] + r);
        assert forall|i: int| 0 <= i < b.len() implies b[i] != c by {
            if i > 0 {
                assert(b[i] == r[i - 1]);
                assert(r.contains(r[i - 1]));
            }
        }
        assert forall|i: int| 0 <= i < b.len() implies b[i] == s[i] by {
            if i > 0 {
                assert(rest.subrange(0, r.len() as int)[i - 1] == r[i - 1]);
            }
        }
        assert(s.subrange(0, b.len() as int) =~= b);
        if b.len() < s.len() {
            assert(s[b.len() as int] == rest[r.len() as int]);
        }
    } else {
        assert(s.subrange(0, 0) =~= b);
    }
}

/// Trimming takes white space off both ends and nothing else: the text is the trimmed
/// one between two runs of white space, and the trimmed one neither begins nor ends
/// with any.
pub proof fn trimming_takes_only_white_space(s: Seq<char>)
    ensures
        trimmed(s).len() > 0 ==> !white_space(trimmed(s)[0]) && !white_space(trimmed(s).last()),
        exists|a: int, b: int|
            {
                &&& 0 <= a <= b <= s.len()
                &&& #[trigger] s.subrange(a, b) == trimmed(s)
                &&& forall|i: int| 0 <= i < a || b <= i < s.len() ==> white_space(#[trigger] s[i])
            },
{
    let f = trimmed_front(s);
    front_takes_only_white_space(s);
    let a = s.len() - f.len();
    back_takes_only_white_space(f);
    let b = a + trimmed(s).len();
    assert(s.subrange(a, b) =~= trimmed(s)) by {
        assert(f.take(trimmed(s).len() as int) =~= s.subrange(a, b));
    }
    assert forall|i: int| 0 <= i < a || b <= i < s.len() implies white_space(#[trigger] s[i]) by {
        if i >= b {
            assert(s[i] == f[i - a]);
        }
    }
    if trimmed(s).len() > 0 {
        assert(trimmed(s)[0] == f[0]);
    }
}

proof fn front_takes_only_white_space(s: Seq<char>)
    ensures
        trimmed_front(s).len() <= s.len(),
        trimmed_front(s) == s.skip(s.len() - trimmed_front(s).len()),
        trimmed_front(s).len() > 0 ==> !white_space(trimmed_front(s)[0]),
        forall|i: int|
            0 <= i < s.len() - trimmed_front(s).len() ==> white_space(#[trigger] s[i]),
    decreases s.len(),
{
    if s.len() > 0 && white_space(s[0]) {
        let rest = s.skip(1);
        front_takes_only_white_space(rest);
        assert(trimmed_front(s) =~= s.skip(s.len() - trimmed_front(s).len()));
        assert forall|i: int|
            0 <= i < s.len() - trimmed_front(s).len() implies white_space(#[trigger] s[i]) by {
            if i > 0 {
                assert(s[i] == rest[i - 1]);
            }
        }
    } else {
        assert(s.skip(0) =~= s);
    }
}

proof fn back_takes_only_white_space(s: Seq<char>)
    ensures
        trimmed_back(s).len() <= s.len(),
        trimmed_back(s) == s.take(trimmed_back(s).len() as int),
        trimmed_back(s).len() > 0 ==> !white_space(trimmed_back(s).last()),
        forall|i: int| trimmed_back(s).len() <= i < s.len() ==> white_space(#[trigger] s[i]),
    decreases s.len(),
{
    if s.len() > 0 && white_space(s.last()) {
        let rest = s.drop_last();
        back_takes_only_white_space(rest);
        assert(trimmed_back(s) =~= s.take(trimmed_back(s).len() as int));
        assert forall|i: int| trimmed_back(s).len() <= i < s.len() implies white_space(
            #[trigger] s[i],
        ) by {
            if i < rest.len() {
                assert(s[i] == rest[i]);
            }
        }
    } else {
        assert(s.take(s.len() as int) =~= s);
    }
}

/// Joining two lists puts the separator between them, and a list of one text is that
/// text.
pub proof fn joining_separates(a: Seq<Seq<char>>, b: Seq<Seq<char>>, sep: Seq<char>)
    requires
        a.len() > 0,
        b.len() > 0,
    ensures
        joined(a + b, sep) == joined(a, sep) + sep + joined(b, sep),
        a.len() == 1 ==> joined(a, sep) == a[0],
    decreases b.len(),
{
    let t = a + b;
    assert(t.last() == b.last());
    if b.len() == 1 {
        assert(t.drop_last() =~= a);
    } else {
        joining_separates(a, b.drop_last(), sep);
        assert(t.drop_last() =~= a + b.drop_last());
        assert(joined(a, sep) + sep + joined(b.drop_last(), sep) + sep + b.last() =~= joined(a, sep)
            + sep + (joined(b.drop_last(), sep) + sep + b.last()));
    }
}

/// Upper-case digits hold no lower-case letter, and lower-case ones no upper-case letter.
pub proof fn digits_keep_their_case(n: nat, base: nat, upper: bool)
    requires
        2 <= base <= 36,
    ensures
        forall|i: int|
            0 <= i < digits(n, base, upper).len() ==> {
                let c = #[trigger] digits(n, base, upper)[i];
                if upper {
                    !('a' <= c <= 'z')
                } else {
                    !('A' <= c <= 'Z')
                }
            },
    decreases n,
{
    if n >= base {
        assert(n / base < n && n % base < base) by (nonlinear_arith)
            requires
                2 <= base <= n,
        ;
        digits_keep_their_case(n / base, base, upper);
        let front = digits(n / base, base, upper);
        let all = digits(n, base, upper);
        assert forall|i: int| 0 <= i < all.len() implies ({
            let c = #[trigger] all[i];
            if upper {
                !('a' <= c <= 'z')
            } else {
                !('A' <= c <= 'Z')
            }
        }) by {
            if i < front.len() {
                assert(all[i] == front[i]);
            }
        }
    }
}

/// Prefixes do not count, however many there are: a lower-case one in front changes
/// nothing, and what is left begins with no upper-case one.
pub proof fn prefixes_do_not_count(s: Seq<char>)
    ensures
        without_hex_prefix("0x"@ + s) == without_hex_prefix(s),
        !has_prefix(without_hex_prefix(s), "0X"@),
        hex_u32_value("0x"@ + s) == hex_u32_value(s),
{
    reveal_strlit("0x");
    reveal_strlit("0X");
    let a = "0x"@ + s;
    assert(a[0] == '0' && a[1] == 'x' && a.skip(2) =~= s);
    let inner = without_prefixes(s, '0', 'x');
    no_prefix_is_left(inner, '0', 'X');
    let r = without_hex_prefix(s);
    if has_prefix(r, "0X"@) {
        assert(r.subrange(0, 2)[0] == r[0] && r.subrange(0, 2)[1] == r[1]);
    }
}

proof fn no_prefix_is_left(s: Seq<char>, a: char, b: char)
    ensures
        ({
            let r = without_prefixes(s, a, b);
            !(r.len() >= 2 && r[0] == a && r[1] == b)
        }),
    decreases s.len(),
{
    if s.len() >= 2 && s[0] == a && s[1] == b {
        no_prefix_is_left(s.skip(2), a, b);
    }
}

/// One plus sign in front changes nothing about a number, and no digits are no number.
pub proof fn a_plus_sign_does_not_count(s: Seq<char>, base: nat, max: nat)
    requires
        s.len() > 0,
        s[0] != '+',
    ensures
        unsigned_value(seq!['+'] + s, base, max) == unsigned_value(s, base, max),
        unsigned_value(Seq::empty(), base, max) is None,
        unsigned_value(seq!['+'], base, max) is None,
        unsigned_value(s, base, max) matches Some(v) ==> v <= max && digits_value(s, base)
            == Some(v),
        digits_value(s, base) matches Some(v) && v <= max ==> unsigned_value(s, base, max)
            == digits_value(s, base),
{
    assert((seq!['+'] + s).skip(1) =~= s);
    assert(seq!['+'].skip(1) =~= Seq::empty());
}

} // verus!
