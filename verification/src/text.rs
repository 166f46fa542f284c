//! Text helpers: decimal numbers, trimming, the last characters of a text, and
//! lossy decoding of raw bytes.

use vstd::prelude::*;
use vstd::utf8::{decode_utf8, valid_utf8};

verus! {

/// An optional text as a sequence of characters.
pub open spec fn text_of(s: Option<String>) -> Option<Seq<char>> {
    match s {
        Some(s) => Some(s@),
        None => None,
    }
}

/// The ASCII character of a decimal digit.
pub open spec fn digit_char(d: nat) -> char {
    (48 + d) as char
}

/// The decimal digits of a number, without leading zeros.
pub open spec fn decimal(n: nat) -> Seq<char>
    decreases n,
{
    if n < 10 {
        seq![digit_char(n)]
    } else {
        decimal(n / 10).push(digit_char(n % 10))
    }
}

/// `String::push` of std: the character is appended at the end.
pub assume_specification[ String::push ](s: &mut String, c: char)
    ensures
        final(s)@ == old(s)@.push(c),
;

/// The decimal text of a number.
pub fn decimal_string(n: u64) -> (r: String)
    ensures
        r@ == decimal(n as nat),
    decreases n,
{
    let digit: char = (48u8 + (n % 10) as u8) as char;
    let mut s = if n < 10 {
        String::new()
    } else {
        decimal_string(n / 10)
    };
    s.push(digit);
    s
}

/// The last `n` characters of a text, or all of it where it has fewer.
pub open spec fn last_of(s: Seq<char>, n: nat) -> Seq<char> {
    if n >= s.len() {
        s
    } else {
        s.skip(s.len() - n)
    }
}

/// The last `n` characters of `text`, clamped to its length. Counted in
/// characters, so a multi-byte character is never split.
pub fn last_chars(text: &str, n: usize) -> (r: String)
    ensures
        r@ == last_of(text@, n as nat),
{
    let len: usize = text.unicode_len();
    if n >= len {
        text.to_owned()
    } else {
        text.substring_char(len - n, len).to_owned()
    }
}

/// The text that `String::from_utf8_lossy` of std makes of raw bytes.
pub uninterp spec fn utf8_lossy(bytes: Seq<u8>) -> Seq<char>;

/// Whether bytes are decoded exactly where they are valid UTF-8.
pub open spec fn decodes_exactly(bytes: Seq<u8>) -> bool {
    valid_utf8(bytes) ==> utf8_lossy(bytes) == decode_utf8(bytes)
}

/// `String::from_utf8_lossy` of std: the text is a function of the bytes, and
/// bytes that are valid UTF-8 are decoded exactly. Where an invalid sequence
/// ends, and so how many U+FFFD stand for it, is left to the name.
#[verifier::external_body]
pub(crate) fn decode_lossy(bytes: &[u8]) -> (r: String)
    ensures
        r@ == utf8_lossy(bytes@),
        valid_utf8(bytes@) ==> r@ == decode_utf8(bytes@),
{
    String::from_utf8_lossy(bytes).into_owned()
}

/// Whether a character has the Unicode property White_Space.
pub open spec fn is_white_space(c: char) -> bool {
    let n = c as u32;
    ||| 0x9 <= n <= 0xd
    ||| n == 0x20
    ||| n == 0x85
    ||| n == 0xa0
    ||| n == 0x1680
    ||| 0x2000 <= n <= 0x200a
    ||| 0x2028 <= n <= 0x2029
    ||| n == 0x202f
    ||| n == 0x205f
    ||| n == 0x3000
}

/// Whether a character is white space.
pub fn white_space(c: char) -> (r: bool)
    ensures
        r == is_white_space(c),
{
    let n: u32 = c as u32;
    (0x9 <= n && n <= 0xd) || n == 0x20 || n == 0x85 || n == 0xa0 || n == 0x1680 || (0x2000 <= n
        && n <= 0x200a) || (0x2028 <= n && n <= 0x2029) || n == 0x202f || n == 0x205f || n == 0x3000
}

/// A text without its leading and trailing white space.
pub open spec fn trimmed(s: Seq<char>) -> Seq<char>
    decreases s.len(),
{
    if s.len() == 0 {
        s
    } else if is_white_space(s[0]) {
        trimmed(s.drop_first())
    } else if is_white_space(s.last()) {
        trimmed(s.drop_last())
    } else {
        s
    }
}

/// What stands between the first and the last character that is not white
/// space is the trimmed text.
proof fn lemma_trimmed_between(s: Seq<char>, from: int, to: int)
    requires
        0 <= from <= to <= s.len(),
        forall|i: int| 0 <= i < from ==> is_white_space(s[i]),
        forall|i: int| to <= i < s.len() ==> is_white_space(s[i]),
        from < to ==> !is_white_space(s[from]) && !is_white_space(s[to - 1]),
    ensures
        trimmed(s) == s.subrange(from, to),
    decreases s.len(),
{
    if s.len() == 0 {
        assert(s =~= s.subrange(from, to));
    } else if is_white_space(s[0]) {
        if from > 0 {
            lemma_trimmed_between(s.drop_first(), from - 1, to - 1);
            assert(s.drop_first().subrange(from - 1, to - 1) =~= s.subrange(from, to));
        } else {
            assert(from == to);
            lemma_trimmed_between(s.drop_first(), 0, 0);
            assert(s.drop_first().subrange(0, 0) =~= s.subrange(from, to));
        }
    } else if is_white_space(s.last()) {
        lemma_trimmed_between(s.drop_last(), from, to);
        assert(s.drop_last().subrange(from, to) =~= s.subrange(from, to));
    } else {
        assert(s =~= s.subrange(from, to));
    }
}

/// `text` without its leading and trailing white space.
pub fn trim(text: &str) -> (r: String)
    ensures
        r@ == trimmed(text@),
{
    let mut from: usize = 0;
    let mut to: usize = 0;
    let len: usize = text.unicode_len();
    let mut at: usize = 0;
    for c in it: text.chars()
        invariant
            it.seq() == text@,
            len == text@.len(),
            at == it.index(),
            from <= to <= at,
            forall|i: int| 0 <= i < from ==> is_white_space(text@[i]),
            forall|i: int| to <= i < at ==> is_white_space(text@[i]),
            from < to ==> !is_white_space(text@[from as int]) && !is_white_space(text@[to - 1]),
            from == to ==> from == 0,
    {
        if !white_space(c) {
            if from == to {
                from = at;
            }
            to = at + 1;
        }
        at = at + 1;
    }
    proof {
        lemma_trimmed_between(text@, from as int, to as int);
    }
    text.substring_char(from, to).to_owned()
}

/// Whether a character is an ASCII decimal digit.
pub open spec fn is_digit(c: char) -> bool {
    48 <= c as u32 <= 57
}

/// The number that a run of decimal digits stands for.
pub open spec fn digits_value(s: Seq<char>) -> nat
    decreases s.len(),
{
    if s.len() == 0 {
        0
    } else {
        10 * digits_value(s.drop_last()) + (s.last() as u32 - 48) as nat
    }
}

/// A text without one leading plus sign.
pub open spec fn unsigned_part(s: Seq<char>) -> Seq<char> {
    if s.len() > 0 && s[0] == '+' {
        s.drop_first()
    } else {
        s
    }
}

/// The number that a text reads as: an optional plus sign, then one or more
/// decimal digits and nothing else, whose value fits 64 bits.
pub open spec fn number_of(s: Seq<char>) -> Option<u64> {
    let digits = unsigned_part(s);
    if digits.len() > 0 && (forall|i: int| 0 <= i < digits.len() ==> is_digit(digits[i]))
        && digits_value(digits) <= u64::MAX {
        Some(digits_value(digits) as u64)
    } else {
        None
    }
}

/// The text of the error that `str::parse::<u64>` of std gives for a text that
/// is no number.
pub uninterp spec fn number_error(s: Seq<char>) -> Seq<char>;

/// `str::parse::<u64>` of std: an optional plus sign and digits, in range, are
/// read as their value; anything else is an error, whose text is a function of
/// the input.
#[verifier::external_body]
pub(crate) fn parse_number(text: &str) -> (r: Result<u64, String>)
    ensures
        match r {
            Ok(n) => number_of(text@) == Some(n),
            Err(e) => number_of(text@) is None && e@ == number_error(text@),
        },
{
    match text.parse::<u64>() {
        Ok(n) => Ok(n),
        Err(e) => Err(e.to_string()),
    }
}

/// The decimal text of a number holds digits only, at least one, and stands for
/// that number.
proof fn lemma_decimal_digits(n: nat)
    ensures
        decimal(n).len() > 0,
        forall|i: int| 0 <= i < decimal(n).len() ==> is_digit(decimal(n)[i]),
        digits_value(decimal(n)) == n,
    decreases n,
{
    if n < 10 {
        let s = decimal(n);
        assert(s.drop_last() =~= Seq::<char>::empty());
        assert(digits_value(s.drop_last()) == 0);
    } else {
        lemma_decimal_digits(n / 10);
        let s = decimal(n);
        assert(s.drop_last() =~= decimal(n / 10));
    }
}

/// The decimal text of a 64-bit number reads as that number.
pub proof fn decimal_reads_back(n: u64)
    ensures
        number_of(decimal(n as nat)) == Some(n),
{
    lemma_decimal_digits(n as nat);
    assert(is_digit(decimal(n as nat)[0]));
}

/// Numbers are written in decimal digits without a leading zero: a digit stands
/// for itself, and a further digit multiplies what stands before it by ten.
pub proof fn decimals_are_positional(n: nat, d: nat)
    requires
        d < 10,
    ensures
        decimal(0) == seq!['0'],
        decimal(d) == seq![(d + '0' as nat) as char],
        n > 0 ==> decimal(10 * n + d) == decimal(n).push((d + '0' as nat) as char),
        decimal(n).len() > 0,
        forall|i: int|
            0 <= i < decimal(n).len() ==> '0' <= #[trigger] decimal(n)[i] && decimal(n)[i] <= '9',
        n > 0 ==> decimal(n)[0] != '0',
{
    lemma_decimal_digits(n);
    assert forall|i: int| 0 <= i < decimal(n).len() implies '0' <= #[trigger] decimal(n)[i]
        && decimal(n)[i] <= '9' by {
        lemma_digit(decimal(n)[i]);
    }
    if n > 0 {
        assert((10 * n + d) / 10 == n && (10 * n + d) % 10 == d);
        lemma_no_leading_zero(n);
    }
}

proof fn lemma_digit(c: char)
    requires
        is_digit(c),
    ensures
        '0' <= c && c <= '9',
{
}

proof fn lemma_no_leading_zero(n: nat)
    requires
        n > 0,
    ensures
        decimal(n)[0] != '0',
    decreases n,
{
    lemma_decimal_digits(n);
    if n >= 10 {
        lemma_no_leading_zero(n / 10);
        lemma_decimal_digits(n / 10);
        assert(decimal(n)[0] == decimal(n / 10)[0]);
    }
}

/// The last `n` characters of a text are its end, `n` long or all of it.
pub proof fn the_last_characters_are_the_end(s: Seq<char>, n: nat)
    ensures
        last_of(s, n).len() == (if s.len() < n {
            s.len()
        } else {
            n
        }),
        forall|i: int|
            0 <= i < last_of(s, n).len() ==> #[trigger] last_of(s, n)[i] == s[i + (s.len()
                - last_of(s, n).len())],
{
}

/// White space is what Unicode lists under White_Space: these 25 characters and no
/// others.
pub proof fn white_space_is_what_unicode_lists(c: char)
    ensures
        is_white_space(c) <==> seq![
            '\u{9}',
            '\u{a}',
            '\u{b}',
            '\u{c}',
            '\u{d}',
            ' ',
            '\u{85}',
            '\u{a0}',
            '\u{1680}',
            '\u{2000}',
            '\u{2001}',
            '\u{2002}',
            '\u{2003}',
            '\u{2004}',
            '\u{2005}',
            '\u{2006}',
            '\u{2007}',
            '\u{2008}',
            '\u{2009}',
            '\u{200a}',
            '\u{2028}',
            '\u{2029}',
            '\u{202f}',
            '\u{205f}',
            '\u{3000}',
        ].contains(c),
{
    let listed = seq![
        '\u{9}',
        '\u{a}',
        '\u{b}',
        '\u{c}',
        '\u{d}',
        ' ',
        '\u{85}',
        '\u{a0}',
        '\u{1680}',
        '\u{2000}',
        '\u{2001}',
        '\u{2002}',
        '\u{2003}',
        '\u{2004}',
        '\u{2005}',
        '\u{2006}',
        '\u{2007}',
        '\u{2008}',
        '\u{2009}',
        '\u{200a}',
        '\u{2028}',
        '\u{2029}',
        '\u{202f}',
        '\u{205f}',
        '\u{3000}',
    ];
    if is_white_space(c) {
        let n = c as int;
        let at: int = if n <= 0xd {
            n - 0x9
        } else if n == 0x20 {
            5
        } else if n == 0x85 {
            6
        } else if n == 0xa0 {
            7
        } else if n == 0x1680 {
            8
        } else if n <= 0x200a {
            n - 0x2000 + 9
        } else if n <= 0x2029 {
            n - 0x2028 + 20
        } else if n == 0x202f {
            22
        } else if n == 0x205f {
            23
        } else {
            24
        };
        assert(listed[at] == c);
    }
    if listed.contains(c) {
        let at = choose|at: int| 0 <= at < listed.len() && listed[at] == c;
        assert(0 <= at < 25);
    }
}

/// Whether only white space stands in a text outside a part of it.
pub open spec fn white_outside(s: Seq<char>, from: int, to: int) -> bool {
    forall|i: int| 0 <= i < s.len() && !(from <= i < to) ==> is_white_space(#[trigger] s[i])
}

/// Trimming takes off white space at both ends and nothing else: what is left
/// stands in the text with only white space before and behind it, and neither
/// begins nor ends with any.
pub proof fn trimming_takes_off_the_ends(s: Seq<char>)
    ensures
        exists|from: int, to: int|
            0 <= from <= to <= s.len() && trimmed(s) == s.subrange(from, to)
                && #[trigger] white_outside(s, from, to),
        trimmed(s).len() > 0 ==> !is_white_space(trimmed(s)[0]) && !is_white_space(
            trimmed(s).last(),
        ),
{
    let (from, to) = lemma_trim_bounds(s);
    assert(white_outside(s, from, to));
}

#[verifier::rlimit(50)]
proof fn lemma_trim_bounds(s: Seq<char>) -> (r: (int, int))
    ensures
        0 <= r.0 <= r.1 <= s.len(),
        trimmed(s) == s.subrange(r.0, r.1),
        white_outside(s, r.0, r.1),
        trimmed(s).len() > 0 ==> !is_white_space(trimmed(s)[0]) && !is_white_space(
            trimmed(s).last(),
        ),
    decreases s.len(),
{
    if s.len() == 0 {
        assert(s.subrange(0, 0) =~= s);
        (0, 0)
    } else if is_white_space(s[0]) {
        let rest = s.drop_first();
        let (from, to) = lemma_trim_bounds(rest);
        assert(s.subrange(from + 1, to + 1) =~= rest.subrange(from, to));
        assert forall|i: int|
            0 <= i < s.len() && !(from + 1 <= i < to + 1) implies is_white_space(
            #[trigger] s[i],
        ) by {
            if i > 0 {
                assert(s[i] == rest[i - 1]);
            }
        }
        (from + 1, to + 1)
    } else if is_white_space(s.last()) {
        let rest = s.drop_last();
        let (from, to) = lemma_trim_bounds(rest);
        assert(s.subrange(from, to) =~= rest.subrange(from, to));
        assert forall|i: int| 0 <= i < s.len() && !(from <= i < to) implies is_white_space(
            #[trigger] s[i],
        ) by {
            if i < rest.len() {
                assert(s[i] == rest[i]);
            }
        }
        (from, to)
    } else {
        assert(s.subrange(0, s.len() as int) =~= s);
        (0, s.len() as int)
    }
}

/// A text reads as a number exactly where it is digits, behind one plus sign at
/// most; a further digit multiplies the number by ten, and what 64 bits cannot
/// hold is none.
pub proof fn numbers_are_read_digit_by_digit(s: Seq<char>, c: char, n: u64)
    ensures
        number_of(Seq::empty()) is None,
        '0' <= c <= '9' ==> number_of(seq![c]) == Some((c as int - '0' as int) as u64),
        !('0' <= c <= '9') ==> number_of(seq![c]) is None,
        s.len() > 0 && s.contains(c) && !('0' <= c <= '9') && c != '+' ==> number_of(s) is None,
        s.len() > 0 && s[0] != '+' ==> number_of(seq!['+'] + s) == number_of(s),
        number_of(s) == Some(n) && '0' <= c <= '9' ==> number_of(s.push(c)) == (if 10 * n + (
        c as int - '0' as int) <= u64::MAX {
            Some((10 * n + (c as int - '0' as int)) as u64)
        } else {
            None
        }),
{
    assert(seq![c].drop_last() =~= Seq::<char>::empty());
    reveal_with_fuel(digits_value, 2);
    assert(seq![c][0] == c);
    if c == '+' {
        assert(seq![c].drop_first() =~= Seq::<char>::empty());
    }
    if !('0' <= c <= '9') && c != '+' {
        assert(!is_digit(seq![c][0]));
    }
    if s.len() > 0 && s.contains(c) && !('0' <= c <= '9') && c != '+' {
        let i = choose|i: int| 0 <= i < s.len() && s[i] == c;
        let digits = unsigned_part(s);
        if s[0] == '+' {
            assert(digits[i - 1] == c);
            assert(!is_digit(digits[i - 1]));
        } else {
            assert(!is_digit(digits[i]));
        }
    }
    if s.len() > 0 && s[0] != '+' {
        assert((seq!['+'] + s)[0] == '+');
        assert((seq!['+'] + s).drop_first() =~= s);
    }
    if number_of(s) == Some(n) && '0' <= c <= '9' {
        let digits = unsigned_part(s);
        let more = unsigned_part(s.push(c));
        assert(s.len() > 0);
        assert(s.push(c)[0] == s[0]);
        assert(more =~= digits.push(c));
        assert(more.drop_last() =~= digits);
        assert(more.last() == c);
        assert(digits_value(more) == 10 * digits_value(digits) + (c as u32 - 48) as nat);
        assert forall|i: int| 0 <= i < more.len() implies is_digit(more[i]) by {
            if i < digits.len() {
                assert(is_digit(digits[i]));
            }
        }
    }
}

/// Bytes that are decoded exactly give the characters that they encode, where they
/// are valid UTF-8.
pub proof fn valid_bytes_are_decoded_as_they_stand(bytes: Seq<u8>)
    requires
        decodes_exactly(bytes),
        valid_utf8(bytes),
    ensures
        utf8_lossy(bytes) == decode_utf8(bytes),
{
}

} // verus!
