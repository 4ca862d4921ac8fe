use vstd::prelude::*;
use vstd::multiset::Multiset;

verus! {

/// The decimal digit for `d` (`0 <= d < 10`).
pub open spec fn digit_char(d: int) -> char {
    ((d + 48) as u8) as char
}

/// Decimal digits of a natural number, most significant first.
pub open spec fn natural_digits(n: nat) -> Seq<char>
    decreases n,
{
    if n < 10 {
        seq![digit_char(n as int)]
    } else {
        natural_digits(n / 10).push(digit_char((n % 10) as int))
    }
}

/// Decimal text of an integer, as `Display` renders it: a leading `-` for
/// negative numbers, no leading zeros.
pub open spec fn decimal(n: int) -> Seq<char> {
    if n < 0 {
        seq!['-'] + natural_digits((-n) as nat)
    } else {
        natural_digits(n as nat)
    }
}

/// Number of bytes of the UTF-8 encoding of `s` (what `str::len` returns).
pub open spec fn utf8_len(s: Seq<char>) -> nat {
    vstd::utf8::encode_utf8(s).len()
}

/// Whether two string slices hold the same text.
pub(crate) fn str_equal(a: &str, b: &str) -> (r: bool)
    ensures
        r == (a@ == b@),
{
    chars_equal(&chars_of(a), &chars_of(b))
}

/// Whether two character sequences are equal.
pub fn chars_equal(a: &Vec<char>, b: &Vec<char>) -> (r: bool)
    ensures
        r == (a@ == b@),
{
    if a.len() != b.len() {
        return false;
    }
    let mut i: usize = 0;
    while i < a.len()
        invariant
            a.len() == b.len(),
            0 <= i <= a.len(),
            forall|j: int| 0 <= j < i ==> a@[j] == b@[j],
        decreases a.len() - i,
    {
        if a[i] != b[i] {
            return false;
        }
        i += 1;
    }
    assert(a@ =~= b@);
    true
}

/// A `String` holding exactly the given characters.
#[verifier::external_body]
pub(crate) fn string_from_chars(chars: &Vec<char>) -> (s: String)
    ensures
        s@ == chars@,
{
    chars.iter().collect()
}

/// The characters of a string slice.
#[verifier::external_body]
pub(crate) fn chars_of(s: &str) -> (chars: Vec<char>)
    ensures
        chars@ == s@,
{
    s.chars().collect()
}

fn digit_of(d: u64) -> (c: char)
    requires
        d < 10,
    ensures
        c == digit_char(d as int),
{
    proof {
        assert(0 <= d + 48 < 256);
    }
    ((d + 48) as u8) as char
}

/// Decimal digits of `n`, most significant first.
pub fn natural_decimal_chars(n: u64) -> (out: Vec<char>)
    ensures
        out@ == natural_digits(n as nat),
    decreases n,
{
    if n < 10 {
        let mut out = Vec::new();
        out.push(digit_of(n));
        out
    } else {
        let mut out = natural_decimal_chars(n / 10);
        out.push(digit_of(n % 10));
        out
    }
}

/// Decimal text of `n` (`n.to_string()`).
pub fn decimal_chars(n: i64) -> (out: Vec<char>)
    ensures
        out@ == decimal(n as int),
{
    if n < 0 {
        let magnitude: u64 = if n == i64::MIN {
            9223372036854775808u64
        } else {
            (-n) as u64
        };
        let digits = natural_decimal_chars(magnitude);
        let mut out = Vec::new();
        out.push('-');
        let mut i: usize = 0;
        while i < digits.len()
            invariant
                0 <= i <= digits.len(),
                out@ == seq!['-'] + digits@.subrange(0, i as int),
            decreases digits.len() - i,
        {
            out.push(digits[i]);
            i += 1;
            assert(out@ == seq!['-'] + digits@.subrange(0, i as int));
        }
        assert(digits@.subrange(0, digits@.len() as int) == digits@);
        out
    } else {
        natural_decimal_chars(n as u64)
    }
}

/// Decimal text of `n` as a `String`.
pub fn decimal_string(n: i64) -> (s: String)
    ensures
        s@ == decimal(n as int),
{
    string_from_chars(&decimal_chars(n))
}

/// Whether `c` has the Unicode White_Space property (what
/// `char::is_whitespace` tests).
pub open spec fn is_white_space(c: char) -> bool {
    ||| ('\u{9}' <= c && c <= '\u{d}')
    ||| c == ' '
    ||| c == '\u{85}'
    ||| c == '\u{a0}'
    ||| c == '\u{1680}'
    ||| ('\u{2000}' <= c && c <= '\u{200a}')
    ||| c == '\u{2028}'
    ||| c == '\u{2029}'
    ||| c == '\u{202f}'
    ||| c == '\u{205f}'
    ||| c == '\u{3000}'
}

pub fn char_is_white_space(c: char) -> (r: bool)
    ensures
        r == is_white_space(c),
{
    ('\u{9}' <= c && c <= '\u{d}') || c == ' ' || c == '\u{85}' || c == '\u{a0}' || c == '\u{1680}'
        || ('\u{2000}' <= c && c <= '\u{200a}') || c == '\u{2028}' || c == '\u{2029}' || c
        == '\u{202f}' || c == '\u{205f}' || c == '\u{3000}'
}

/// A name is blank when trimming it leaves nothing: every character is
/// whitespace.
pub open spec fn is_blank(text: Seq<char>) -> bool {
    forall|i: int| 0 <= i < text.len() ==> is_white_space(#[trigger] text[i])
}

pub fn text_is_blank(text: &str) -> (r: bool)
    ensures
        r == is_blank(text@),
{
    let chars = chars_of(text);
    let mut i: usize = 0;
    while i < chars.len()
        invariant
            chars@ == text@,
            0 <= i <= chars.len(),
            forall|j: int| 0 <= j < i ==> is_white_space(#[trigger] text@[j]),
        decreases chars.len() - i,
    {
        if !char_is_white_space(chars[i]) {
            return false;
        }
        i += 1;
    }
    true
}


/// `s` without its leading whitespace (`str::trim_start`).
pub open spec fn trim_start_chars(s: Seq<char>) -> Seq<char>
    decreases s.len(),
{
    if s.len() > 0 && is_white_space(s[0]) {
        trim_start_chars(s.drop_first())
    } else {
        s
    }
}

/// `s` without its trailing whitespace (`str::trim_end`).
pub open spec fn trim_end_chars(s: Seq<char>) -> Seq<char>
    decreases s.len(),
{
    if s.len() > 0 && is_white_space(s.last()) {
        trim_end_chars(s.drop_last())
    } else {
        s
    }
}

/// `s` without leading and trailing whitespace (`str::trim`).
pub open spec fn trim_chars(s: Seq<char>) -> Seq<char> {
    trim_end_chars(trim_start_chars(s))
}

proof fn lemma_trim_start_at(s: Seq<char>, k: int)
    requires
        0 <= k <= s.len(),
        forall|i: int| 0 <= i < k ==> is_white_space(#[trigger] s[i]),
        k == s.len() || !is_white_space(s[k]),
    ensures
        trim_start_chars(s) == s.subrange(k, s.len() as int),
    decreases k,
{
    if k > 0 {
        let rest = s.drop_first();
        assert forall|i: int| 0 <= i < k - 1 implies is_white_space(#[trigger] rest[i]) by {
            assert(rest[i] == s[i + 1]);
        }
        lemma_trim_start_at(rest, k - 1);
        assert(rest.subrange(k - 1, rest.len() as int) =~= s.subrange(k, s.len() as int));
    } else {
        assert(s.subrange(0, s.len() as int) =~= s);
    }
}

proof fn lemma_trim_end_at(s: Seq<char>, k: int)
    requires
        0 <= k <= s.len(),
        forall|i: int| k <= i < s.len() ==> is_white_space(#[trigger] s[i]),
        k == 0 || !is_white_space(s[k - 1]),
    ensures
        trim_end_chars(s) == s.subrange(0, k),
    decreases s.len() - k,
{
    if k < s.len() {
        let rest = s.drop_last();
        assert forall|i: int| k <= i < rest.len() implies is_white_space(#[trigger] rest[i]) by {
            assert(rest[i] == s[i]);
        }
        lemma_trim_end_at(rest, k);
        assert(rest.subrange(0, k) =~= s.subrange(0, k));
    } else {
        assert(s.subrange(0, k) =~= s);
    }
}

/// The characters of `chars` from `from` up to `to`.
pub fn copy_range(chars: &Vec<char>, from: usize, to: usize) -> (r: Vec<char>)
    requires
        from <= to <= chars@.len(),
    ensures
        r@ == chars@.subrange(from as int, to as int),
{
    let mut r: Vec<char> = Vec::new();
    let mut i: usize = from;
    while i < to
        invariant
            from <= i <= to <= chars@.len(),
            r@ == chars@.subrange(from as int, i as int),
        decreases to - i,
    {
        r.push(chars[i]);
        i += 1;
        assert(r@ =~= chars@.subrange(from as int, i as int));
    }
    r
}

/// `chars` without leading whitespace.
pub fn trim_start_vec(chars: &Vec<char>) -> (r: Vec<char>)
    ensures
        r@ == trim_start_chars(chars@),
{
    let mut k: usize = 0;
    while k < chars.len() && char_is_white_space(chars[k])
        invariant
            0 <= k <= chars@.len(),
            forall|i: int| 0 <= i < k ==> is_white_space(#[trigger] chars@[i]),
        decreases chars.len() - k,
    {
        k += 1;
    }
    proof {
        lemma_trim_start_at(chars@, k as int);
    }
    copy_range(chars, k, chars.len())
}

/// `chars` without leading and trailing whitespace.
pub fn trim_vec(chars: &Vec<char>) -> (r: Vec<char>)
    ensures
        r@ == trim_chars(chars@),
{
    let start = trim_start_vec(chars);
    let mut k: usize = start.len();
    while k > 0 && char_is_white_space(start[k - 1])
        invariant
            0 <= k <= start@.len(),
            forall|i: int| k <= i < start@.len() ==> is_white_space(#[trigger] start@[i]),
        decreases k,
    {
        k -= 1;
    }
    proof {
        lemma_trim_end_at(start@, k as int);
    }
    copy_range(&start, 0, k)
}

/// Whether `c` is one of the ASCII digits.
pub open spec fn is_ascii_digit(c: char) -> bool {
    '0' <= c && c <= '9'
}

/// The digits of an unsigned number: the text after an optional `+`.
pub open spec fn unsigned_digits(s: Seq<char>) -> Seq<char> {
    if s.len() > 0 && s[0] == '+' {
        s.drop_first()
    } else {
        s
    }
}

pub open spec fn all_ascii_digits(d: Seq<char>) -> bool {
    forall|i: int| 0 <= i < d.len() ==> is_ascii_digit(#[trigger] d[i])
}

/// Value of a string of decimal digits.
pub open spec fn digits_value(d: Seq<char>) -> nat
    decreases d.len(),
{
    if d.len() == 0 {
        0
    } else {
        digits_value(d.drop_last()) * 10 + ((d.last() as u32) - 48) as nat
    }
}

/// What `u16::from_str`, `usize::from_str` and the like give for the
/// unsigned type whose largest value is `max`: an optional `+`, then one
/// or more ASCII digits whose value is at most `max`.
pub open spec fn parse_unsigned(s: Seq<char>, max: nat) -> Option<nat> {
    let d = unsigned_digits(s);
    if d.len() > 0 && all_ascii_digits(d) && digits_value(d) <= max {
        Some(digits_value(d))
    } else {
        None
    }
}

proof fn lemma_digits_value_prefix(d: Seq<char>, k: int)
    requires
        0 <= k <= d.len(),
        forall|i: int| 0 <= i < d.len() ==> is_ascii_digit(#[trigger] d[i]),
    ensures
        digits_value(d.subrange(0, k)) <= digits_value(d),
    decreases d.len() - k,
{
    if k < d.len() {
        lemma_digits_value_prefix(d, k + 1);
        assert(d.subrange(0, k + 1).drop_last() =~= d.subrange(0, k));
    } else {
        assert(d.subrange(0, k) =~= d);
    }
}

/// Parses `chars` as an unsigned number no greater than `max`.
pub fn parse_unsigned_vec(chars: &Vec<char>, max: u64) -> (r: Option<u64>)
    ensures
        r matches Some(v) ==> parse_unsigned(chars@, max as nat) == Some(v as nat),
        r is None ==> parse_unsigned(chars@, max as nat) is None,
{
    let start: usize = if chars.len() > 0 && chars[0] == '+' { 1 } else { 0 };
    let ghost d = unsigned_digits(chars@);
    proof {
        assert(d =~= chars@.subrange(start as int, chars@.len() as int));
    }
    if start >= chars.len() {
        return None;
    }
    let mut i: usize = start;
    while i < chars.len()
        invariant
            start <= i <= chars@.len(),
            d == chars@.subrange(start as int, chars@.len() as int),
            d == unsigned_digits(chars@),
            forall|j: int| start <= j < i ==> is_ascii_digit(#[trigger] chars@[j]),
        decreases chars.len() - i,
    {
        if !('0' <= chars[i] && chars[i] <= '9') {
            proof {
                assert(d[i - start] == chars@[i as int]);
                assert(!is_ascii_digit(d[i - start]));
                assert(!all_ascii_digits(d));
            }
            return None;
        }
        i += 1;
    }
    assert forall|j: int| 0 <= j < d.len() implies is_ascii_digit(#[trigger] d[j]) by {
        assert(d[j] == chars@[j + start]);
    }
    let mut value: u64 = 0;
    let mut k: usize = start;
    while k < chars.len()
        invariant
            start <= k <= chars@.len(),
            d == chars@.subrange(start as int, chars@.len() as int),
            d == unsigned_digits(chars@),
            forall|j: int| 0 <= j < d.len() ==> is_ascii_digit(#[trigger] d[j]),
            value as nat == digits_value(d.subrange(0, k - start)),
            value <= max,
        decreases chars.len() - k,
    {
        proof {
            assert(d[k - start] == chars@[k as int]);
            assert(is_ascii_digit(chars@[k as int]));
        }
        let digit: u64 = (chars[k] as u32 - 48) as u64;
        proof {
            assert(d.subrange(0, k + 1 - start).drop_last() =~= d.subrange(0, k - start));
            assert(d[k - start] == chars@[k as int]);
        }
        if digit > max || value > (max - digit) / 10 {
            proof {
                assert(value * 10 + digit > max) by (nonlinear_arith)
                    requires
                        digit > max || value > (max - digit) / 10,
                        value >= 0;
                lemma_digits_value_prefix(d, k + 1 - start);
                assert(digits_value(d) > max);
            }
            return None;
        }
        proof {
            assert(value * 10 + digit <= max) by (nonlinear_arith)
                requires
                    value <= (max - digit) / 10,
                    digit <= max;
        }
        value = value * 10 + digit;
        k += 1;
    }
    proof {
        assert(d.subrange(0, d.len() as int) =~= d);
    }
    Some(value)
}


/// Code of `c` with ASCII upper-case letters lowered.
pub open spec fn ascii_lower(c: char) -> int {
    if 'A' <= c && c <= 'Z' {
        (c as u32) + 32
    } else {
        c as u32 as int
    }
}

/// Whether `value` starts with `prefix` when ASCII letters are compared
/// without regard to case.
pub open spec fn starts_with_ignoring_ascii_case(value: Seq<char>, prefix: Seq<char>) -> bool {
    &&& value.len() >= prefix.len()
    &&& forall|i: int| 0 <= i < prefix.len() ==> ascii_lower(#[trigger] value[i]) == ascii_lower(prefix[i])
}

pub fn chars_eq_ignore_ascii_case(a: char, b: char) -> (r: bool)
    ensures
        r == (ascii_lower(a) == ascii_lower(b)),
{
    let ca = a as u32;
    let cb = b as u32;
    let la = if 65 <= ca && ca <= 90 { ca + 32 } else { ca };
    let lb = if 65 <= cb && cb <= 90 { cb + 32 } else { cb };
    la == lb
}

/// Whether `needle` occurs in `hay`.
pub open spec fn contains_text(hay: Seq<char>, needle: Seq<char>) -> bool {
    exists|i: int| 0 <= i && i + needle.len() <= hay.len() && #[trigger] hay.subrange(i, i + needle.len()) == needle
}

pub fn contains_text_vec(hay: &Vec<char>, needle: &Vec<char>) -> (r: bool)
    ensures
        r == contains_text(hay@, needle@),
{
    if needle.len() > hay.len() {
        return false;
    }
    if needle.len() == 0 {
        assert(hay@.subrange(0, 0int + needle@.len()) =~= needle@);
        return true;
    }
    let last = hay.len() - needle.len();
    let mut i: usize = 0;
    while i <= last
        invariant
            last + needle@.len() == hay@.len(),
            needle@.len() > 0,
            hay@.len() == hay.len(),
            0 <= i <= last + 1,
            forall|p: int| 0 <= p < i ==> #[trigger] hay@.subrange(p, p + needle@.len()) != needle@,
        decreases last + 1 - i,
    {
        let mut j: usize = 0;
        let mut same = true;
        while j < needle.len()
            invariant
                last + needle@.len() == hay@.len(),
                hay@.len() == hay.len(),
                i <= last,
                0 <= j <= needle@.len(),
                same == forall|q: int| 0 <= q < j ==> hay@[i + q] == needle@[q],
            decreases needle.len() - j,
        {
            if hay[i + j] != needle[j] {
                same = false;
            }
            j += 1;
        }
        if same {
            assert(hay@.subrange(i as int, i + needle@.len()) =~= needle@);
            return true;
        }
        proof {
            assert forall|p: int| 0 <= p < i + 1 implies #[trigger] hay@.subrange(p, p + needle@.len()) != needle@ by {
                if p == i {
                    let q = choose|q: int| 0 <= q < needle@.len() && hay@[i + q] != needle@[q];
                    assert(hay@.subrange(p, p + needle@.len())[q] == hay@[i + q]);
                }
            }
        }
        i += 1;
    }
    proof {
        assert forall|p: int| 0 <= p && p + needle@.len() <= hay@.len() implies #[trigger] hay@.subrange(p, p + needle@.len()) != needle@ by {
            assert(p < i);
        }
    }
    false
}

/// Position of the first `c` in `s`.
pub open spec fn first_index_of(s: Seq<char>, c: char) -> Option<int> {
    if exists|i: int| 0 <= i < s.len() && s[i] == c {
        Some(choose|i: int| 0 <= i < s.len() && s[i] == c && forall|j: int| 0 <= j < i ==> s[j] != c)
    } else {
        None
    }
}

pub fn find_char(chars: &Vec<char>, c: char) -> (r: Option<usize>)
    ensures
        r matches Some(i) ==> first_index_of(chars@, c) == Some(i as int),
        r is None ==> first_index_of(chars@, c) is None,
        r matches Some(i) ==> i < chars@.len() && chars@[i as int] == c && forall|j: int| 0 <= j < i ==> chars@[j] != c,
{
    let mut i: usize = 0;
    while i < chars.len()
        invariant
            0 <= i <= chars@.len(),
            forall|j: int| 0 <= j < i ==> chars@[j] != c,
        decreases chars.len() - i,
    {
        if chars[i] == c {
            proof {
                let w = choose|w: int| 0 <= w < chars@.len() && chars@[w] == c && forall|j: int| 0 <= j < w ==> chars@[j] != c;
                if w < i {
                } else if w > i {
                    assert(chars@[i as int] == c);
                }
            }
            return Some(i);
        }
        i += 1;
    }
    None
}


/// `a` followed by `b`.
pub fn concat_str(a: &str, b: &str) -> (r: String)
    ensures
        r@ == a@ + b@,
{
    let mut chars = chars_of(a);
    let tail = chars_of(b);
    let ghost head = chars@;
    let mut i: usize = 0;
    while i < tail.len()
        invariant
            0 <= i <= tail@.len(),
            chars@ == head + tail@.subrange(0, i as int),
        decreases tail.len() - i,
    {
        chars.push(tail[i]);
        i += 1;
        assert(chars@ =~= head + tail@.subrange(0, i as int));
    }
    assert(tail@.subrange(0, tail@.len() as int) =~= tail@);
    string_from_chars(&chars)
}


/// A line as `str::lines` gives it: without the `\r` of a `\r\n` ending.
pub open spec fn strip_cr(line: Seq<char>) -> Seq<char> {
    if line.len() > 0 && line.last() == '\r' {
        line.drop_last()
    } else {
        line
    }
}

/// The lines of `s` when the current line so far is `current`.
pub open spec fn split_lines(s: Seq<char>, current: Seq<char>) -> Seq<Seq<char>>
    decreases s.len(),
{
    if s.len() == 0 {
        if current.len() > 0 {
            seq![current]
        } else {
            Seq::empty()
        }
    } else if s[0] == '\n' {
        seq![strip_cr(current)] + split_lines(s.drop_first(), Seq::empty())
    } else {
        split_lines(s.drop_first(), current.push(s[0]))
    }
}

/// The lines of `s` as `str::lines` splits them: at each `\n`, a `\r`
/// just before it dropped; no line after a final `\n`.
pub open spec fn text_lines(s: Seq<char>) -> Seq<Seq<char>> {
    split_lines(s, Seq::empty())
}

/// The text of each line.
pub open spec fn line_texts(v: Seq<String>) -> Seq<Seq<char>> {
    v.map_values(|l: String| l@)
}

fn push_line(lines: &mut Vec<String>, line: &Vec<char>)
    ensures
        line_texts(final(lines)@) == line_texts(old(lines)@).push(line@),
{
    let ghost before = lines@;
    let text = string_from_chars(line);
    lines.push(text);
    assert(line_texts(lines@) =~= line_texts(before).push(line@));
}

/// The lines of `text` (`str::lines`).
pub fn lines_of(text: &str) -> (r: Vec<String>)
    ensures
        line_texts(r@) == text_lines(text@),
{
    let chars = chars_of(text);
    let ghost s = chars@;
    let mut lines: Vec<String> = Vec::new();
    let mut current: Vec<char> = Vec::new();
    let mut i: usize = 0;
    proof {
        assert(s.skip(0) =~= s);
        assert(line_texts(lines@) =~= Seq::<Seq<char>>::empty());
        assert(line_texts(lines@) + split_lines(s.skip(0), current@) =~= text_lines(s));
    }
    while i < chars.len()
        invariant
            s == chars@,
            0 <= i <= s.len(),
            text_lines(s) == line_texts(lines@) + split_lines(s.skip(i as int), current@),
        decreases chars.len() - i,
    {
        let ghost rest = s.skip(i as int);
        proof {
            assert(rest[0] == s[i as int]);
            assert(rest.drop_first() =~= s.skip(i + 1));
        }
        if chars[i] == '\n' {
            let ghost before = line_texts(lines@);
            let mut line = current;
            if line.len() > 0 && line[line.len() - 1] == '\r' {
                line.pop();
            }
            proof {
                assert(line@ == strip_cr(current@));
            }
            push_line(&mut lines, &line);
            current = Vec::new();
            proof {
                assert(before.push(line@) + split_lines(s.skip(i + 1), Seq::empty())
                    =~= before + (seq![line@] + split_lines(s.skip(i + 1), Seq::empty())));
            }
        } else {
            current.push(chars[i]);
        }
        i += 1;
    }
    proof {
        assert(s.skip(i as int).len() == 0);
    }
    if current.len() > 0 {
        let ghost before = line_texts(lines@);
        push_line(&mut lines, &current);
        proof {
            assert(before.push(current@) =~= before + seq![current@]);
        }
    } else {
        proof {
            assert(line_texts(lines@) + Seq::<Seq<char>>::empty() =~= line_texts(lines@));
        }
    }
    lines
}


/// The words of `s` when the current word so far is `current`.
pub open spec fn split_words(s: Seq<char>, current: Seq<char>) -> Seq<Seq<char>>
    decreases s.len(),
{
    if s.len() == 0 {
        if current.len() > 0 {
            seq![current]
        } else {
            Seq::empty()
        }
    } else if is_white_space(s[0]) {
        (if current.len() > 0 {
            seq![current]
        } else {
            Seq::empty()
        }) + split_words(s.drop_first(), Seq::empty())
    } else {
        split_words(s.drop_first(), current.push(s[0]))
    }
}

/// The words of `s`, separated by whitespace (`str::split_whitespace`).
pub open spec fn words_of(s: Seq<char>) -> Seq<Seq<char>> {
    split_words(s, Seq::empty())
}

/// The words of `text` (`str::split_whitespace`).
pub fn split_whitespace_vec(text: &str) -> (r: Vec<Vec<char>>)
    ensures
        r@.map_values(|w: Vec<char>| w@) == words_of(text@),
{
    let chars = chars_of(text);
    let ghost s = chars@;
    let mut words: Vec<Vec<char>> = Vec::new();
    let mut current: Vec<char> = Vec::new();
    let mut i: usize = 0;
    proof {
        assert(s.skip(0) =~= s);
        assert(words@.map_values(|w: Vec<char>| w@) + split_words(s.skip(0), current@) =~= words_of(s));
    }
    while i < chars.len()
        invariant
            s == chars@,
            0 <= i <= s.len(),
            words_of(s) == words@.map_values(|w: Vec<char>| w@) + split_words(s.skip(i as int), current@),
        decreases chars.len() - i,
    {
        let ghost rest = s.skip(i as int);
        proof {
            assert(rest[0] == s[i as int]);
            assert(rest.drop_first() =~= s.skip(i + 1));
        }
        let ghost before = words@.map_values(|w: Vec<char>| w@);
        if char_is_white_space(chars[i]) {
            if current.len() > 0 {
                let ghost cur = current@;
                words.push(current);
                current = Vec::new();
                proof {
                    assert(current@ =~= Seq::<char>::empty());
                    assert(words@.map_values(|w: Vec<char>| w@) =~= before.push(cur));
                    assert(before.push(cur) + split_words(s.skip(i + 1), Seq::empty())
                        =~= before + (seq![cur] + split_words(s.skip(i + 1), Seq::empty())));
                }
            } else {
                proof {
                    assert(current@ =~= Seq::<char>::empty());
                    assert(Seq::<Seq<char>>::empty() + split_words(s.skip(i + 1), Seq::empty())
                        =~= split_words(s.skip(i + 1), Seq::empty()));
                }
            }
        } else {
            let ghost cur = current@;
            current.push(chars[i]);
            proof {
                assert(!is_white_space(rest[0]));
                assert(split_words(rest, cur) == split_words(rest.drop_first(), cur.push(rest[0])));
            }
        }
        i += 1;
    }
    proof {
        assert(s.skip(i as int).len() == 0);
    }
    if current.len() > 0 {
        let ghost before = words@.map_values(|w: Vec<char>| w@);
        let ghost cur = current@;
        words.push(current);
        proof {
            assert(words@.map_values(|w: Vec<char>| w@) =~= before + seq![cur]);
        }
    } else {
        proof {
            assert(words@.map_values(|w: Vec<char>| w@) + Seq::<Seq<char>>::empty() =~= words@.map_values(|w: Vec<char>| w@));
        }
    }
    words
}


/// ASCII whitespace as `u8::is_ascii_whitespace` has it: space, tab, line
/// feed, form feed and carriage return.
pub open spec fn is_ascii_white_space(c: char) -> bool {
    c == ' ' || c == '\t' || c == '\n' || c == '\u{c}' || c == '\r'
}

/// The words of `s` between runs of ASCII whitespace, when the current
/// word so far is `current`.
pub open spec fn split_ascii_words(s: Seq<char>, current: Seq<char>) -> Seq<Seq<char>>
    decreases s.len(),
{
    if s.len() == 0 {
        if current.len() > 0 {
            seq![current]
        } else {
            Seq::empty()
        }
    } else if is_ascii_white_space(s[0]) {
        (if current.len() > 0 {
            seq![current]
        } else {
            Seq::empty()
        }) + split_ascii_words(s.drop_first(), Seq::empty())
    } else {
        split_ascii_words(s.drop_first(), current.push(s[0]))
    }
}

/// The words of `s` (`str::split_ascii_whitespace`).
pub open spec fn ascii_words_of(s: Seq<char>) -> Seq<Seq<char>> {
    split_ascii_words(s, Seq::empty())
}

/// The words of `text` (`str::split_ascii_whitespace`).
pub fn split_ascii_whitespace_vec(text: &str) -> (r: Vec<String>)
    ensures
        r@.map_values(|w: String| w@) == ascii_words_of(text@),
{
    let chars = chars_of(text);
    let ghost s = chars@;
    let mut words: Vec<String> = Vec::new();
    let mut current: Vec<char> = Vec::new();
    let mut i: usize = 0;
    proof {
        assert(s.skip(0) =~= s);
        assert(words@.map_values(|w: String| w@) + split_ascii_words(s.skip(0), current@) =~= ascii_words_of(s));
    }
    while i < chars.len()
        invariant
            s == chars@,
            0 <= i <= s.len(),
            ascii_words_of(s) == words@.map_values(|w: String| w@) + split_ascii_words(s.skip(i as int), current@),
        decreases chars.len() - i,
    {
        let ghost rest = s.skip(i as int);
        proof {
            assert(rest[0] == s[i as int]);
            assert(rest.drop_first() =~= s.skip(i + 1));
        }
        let ghost before = words@.map_values(|w: String| w@);
        let c = chars[i];
        if c == ' ' || c == '\t' || c == '\n' || c == '\u{c}' || c == '\r' {
            if current.len() > 0 {
                let ghost cur = current@;
                words.push(string_from_chars(&current));
                current = Vec::new();
                proof {
                    assert(current@ =~= Seq::<char>::empty());
                    assert(words@.map_values(|w: String| w@) =~= before.push(cur));
                    assert(before.push(cur) + split_ascii_words(s.skip(i + 1), Seq::empty())
                        =~= before + (seq![cur] + split_ascii_words(s.skip(i + 1), Seq::empty())));
                }
            } else {
                proof {
                    assert(current@ =~= Seq::<char>::empty());
                    assert(Seq::<Seq<char>>::empty() + split_ascii_words(s.skip(i + 1), Seq::empty())
                        =~= split_ascii_words(s.skip(i + 1), Seq::empty()));
                }
            }
        } else {
            let ghost cur = current@;
            current.push(c);
            proof {
                assert(!is_ascii_white_space(rest[0]));
                assert(split_ascii_words(rest, cur) == split_ascii_words(rest.drop_first(), cur.push(rest[0])));
            }
        }
        i += 1;
    }
    proof {
        assert(s.skip(i as int).len() == 0);
    }
    if current.len() > 0 {
        let ghost before = words@.map_values(|w: String| w@);
        let ghost cur = current@;
        words.push(string_from_chars(&current));
        proof {
            assert(words@.map_values(|w: String| w@) =~= before + seq![cur]);
        }
    } else {
        proof {
            assert(words@.map_values(|w: String| w@) + Seq::<Seq<char>>::empty() =~= words@.map_values(|w: String| w@));
        }
    }
    words
}

/// `s` with every occurrence of the non-empty `from`, taken left to right
/// without overlap, replaced by `to` (`str::replace`).
pub open spec fn replace_all(s: Seq<char>, from: Seq<char>, to: Seq<char>) -> Seq<char>
    decreases s.len(),
{
    if from.len() == 0 || s.len() < from.len() {
        s
    } else if s.take(from.len() as int) == from {
        to + replace_all(s.skip(from.len() as int), from, to)
    } else {
        seq![s[0]] + replace_all(s.drop_first(), from, to)
    }
}

/// `text` with every occurrence of `from` replaced by `to`.
pub fn replace_text(text: &str, from: &str, to: &str) -> (r: String)
    requires
        from@.len() > 0,
    ensures
        r@ == replace_all(text@, from@, to@),
{
    let chars = chars_of(text);
    let pattern = chars_of(from);
    let replacement = chars_of(to);
    let ghost s = chars@;
    let mut out: Vec<char> = Vec::new();
    let mut i: usize = 0;
    proof {
        assert(s.skip(0) =~= s);
        assert(out@ + replace_all(s.skip(0), from@, to@) =~= replace_all(s, from@, to@));
    }
    while i < chars.len()
        invariant
            s == chars@,
            pattern@ == from@,
            replacement@ == to@,
            from@.len() > 0,
            0 <= i <= s.len(),
            replace_all(s, from@, to@) == out@ + replace_all(s.skip(i as int), from@, to@),
        decreases chars.len() - i,
    {
        let ghost rest = s.skip(i as int);
        let ghost before = out@;
        let n = pattern.len();
        let mut matched = n <= chars.len() - i;
        if matched {
            let window = crate::text::copy_range(&chars, i, i + n);
            matched = chars_equal(&window, &pattern);
            proof {
                assert(window@ =~= rest.take(n as int));
            }
        }
        if matched {
            let mut k: usize = 0;
            while k < replacement.len()
                invariant
                    0 <= k <= replacement@.len(),
                    out@ == before + replacement@.take(k as int),
                decreases replacement.len() - k,
            {
                out.push(replacement[k]);
                k += 1;
                assert(out@ =~= before + replacement@.take(k as int));
            }
            proof {
                assert(replacement@.take(replacement@.len() as int) =~= replacement@);
                assert(rest.skip(n as int) =~= s.skip(i + n));
                assert(before + (to@ + replace_all(s.skip(i + n), from@, to@)) =~= out@ + replace_all(s.skip(i + n), from@, to@));
            }
            i = i + n;
        } else {
            out.push(chars[i]);
            proof {
                assert(rest[0] == s[i as int]);
                assert(rest.drop_first() =~= s.skip(i + 1));
                if rest.len() < from@.len() {
                    assert(replace_all(rest, from@, to@) == rest);
                    assert(rest =~= seq![rest[0]] + rest.drop_first());
                    lemma_replace_all_short(rest.drop_first(), from@, to@);
                }
                assert(before + (seq![s[i as int]] + replace_all(s.skip(i + 1), from@, to@)) =~= out@ + replace_all(s.skip(i + 1), from@, to@));
            }
            i = i + 1;
        }
    }
    proof {
        assert(s.skip(i as int) =~= Seq::<char>::empty());
        assert(out@ + Seq::<char>::empty() =~= out@);
    }
    string_from_chars(&out)
}

proof fn lemma_replace_all_short(s: Seq<char>, from: Seq<char>, to: Seq<char>)
    requires
        s.len() < from.len(),
    ensures
        replace_all(s, from, to) == s,
{
}

/// Whether some line of `text`, trimmed, is exactly `line`.
pub open spec fn has_trimmed_line(text: Seq<char>, line: Seq<char>) -> bool {
    exists|i: int| 0 <= i < text_lines(text).len() && trim_chars(#[trigger] text_lines(text)[i]) == line
}

/// Whether some line of `text`, trimmed, is exactly `line`.
pub fn contains_trimmed_line(text: &str, line: &str) -> (r: bool)
    ensures
        r == has_trimmed_line(text@, line@),
{
    let lines = lines_of(text);
    let wanted = chars_of(line);
    let ghost all = text_lines(text@);
    let mut i: usize = 0;
    while i < lines.len()
        invariant
            all == text_lines(text@),
            0 <= i <= lines@.len(),
            line_texts(lines@) == all,
            wanted@ == line@,
            forall|j: int| 0 <= j < i ==> trim_chars(#[trigger] all[j]) != wanted@,
        decreases lines@.len() - i,
    {
        let current = chars_of(lines[i].as_str());
        let trimmed = trim_vec(&current);
        assert(all[i as int] == lines@[i as int]@);
        if chars_equal(&trimmed, &wanted) {
            assert(trim_chars(all[i as int]) == line@);
            return true;
        }
        i = i + 1;
    }
    proof {
        assert(lines@.len() == all.len());
    }
    false
}

/// `a` comes before `b`, or is `b`, in the order of their characters'
/// code points (the order of their UTF-8 bytes).
pub open spec fn text_le(a: Seq<char>, b: Seq<char>) -> bool
    decreases a.len(),
{
    if a.len() == 0 {
        true
    } else if b.len() == 0 {
        false
    } else if a[0] != b[0] {
        a[0] < b[0]
    } else {
        text_le(a.drop_first(), b.drop_first())
    }
}

/// Any two texts are ordered one way or the other.
pub proof fn lemma_text_le_total(a: Seq<char>, b: Seq<char>)
    ensures
        text_le(a, b) || text_le(b, a),
    decreases a.len(),
{
    if a.len() > 0 && b.len() > 0 && a[0] == b[0] {
        lemma_text_le_total(a.drop_first(), b.drop_first());
    }
}

/// The order is transitive.
pub proof fn lemma_text_le_transitive(a: Seq<char>, b: Seq<char>, c: Seq<char>)
    requires
        text_le(a, b),
        text_le(b, c),
    ensures
        text_le(a, c),
    decreases a.len(),
{
    if a.len() > 0 && b.len() > 0 && c.len() > 0 && a[0] == b[0] && b[0] == c[0] {
        lemma_text_le_transitive(a.drop_first(), b.drop_first(), c.drop_first());
    }
}

/// Texts ordered both ways are equal.
pub proof fn lemma_text_le_antisymmetric(a: Seq<char>, b: Seq<char>)
    requires
        text_le(a, b),
        text_le(b, a),
    ensures
        a == b,
    decreases a.len(),
{
    if a.len() > 0 && b.len() > 0 {
        lemma_text_le_antisymmetric(a.drop_first(), b.drop_first());
        assert(a =~= seq![a[0]] + a.drop_first());
        assert(b =~= seq![b[0]] + b.drop_first());
    }
}

/// Whether `a` comes before `b`, or is `b`, in the order of characters.
pub fn text_le_exec(a: &str, b: &str) -> (r: bool)
    ensures
        r == text_le(a@, b@),
{
    let x = chars_of(a);
    let y = chars_of(b);
    let mut i: usize = 0;
    assert(x@.skip(0) =~= x@);
    assert(y@.skip(0) =~= y@);
    while i < x.len() && i < y.len() && x[i] == y[i]
        invariant
            0 <= i <= x@.len(),
            i <= y@.len(),
            text_le(x@, y@) == text_le(x@.skip(i as int), y@.skip(i as int)),
        decreases x@.len() - i,
    {
        assert(x@.skip(i as int).drop_first() =~= x@.skip(i as int + 1));
        assert(y@.skip(i as int).drop_first() =~= y@.skip(i as int + 1));
        i = i + 1;
    }
    if i == x.len() {
        true
    } else if i == y.len() {
        false
    } else {
        x[i] < y[i]
    }
}

/// The texts are in ascending order.
pub open spec fn texts_sorted(s: Seq<Seq<char>>) -> bool {
    forall|i: int, j: int| 0 <= i < j < s.len() ==> text_le(#[trigger] s[i], #[trigger] s[j])
}

/// The texts of strings.
pub open spec fn string_views(v: Seq<String>) -> Seq<Seq<char>> {
    v.map_values(|s: String| s@)
}

/// The strings in ascending order of their texts.
pub fn sort_texts(items: Vec<String>) -> (r: Vec<String>)
    ensures
        string_views(r@).to_multiset() == string_views(items@).to_multiset(),
        texts_sorted(string_views(r@)),
{
    broadcast use vstd::seq_lib::group_to_multiset_ensures, vstd::multiset::group_multiset_properties;

    let ghost all = string_views(items@);
    let mut rest = items;
    let mut sorted: Vec<String> = Vec::new();
    assert(string_views(sorted@).to_multiset() =~= Multiset::<Seq<char>>::empty()) by {
        assert(string_views(sorted@) =~= Seq::<Seq<char>>::empty());
    }
    while rest.len() > 0
        invariant
            string_views(sorted@).to_multiset().add(string_views(rest@).to_multiset()) == all.to_multiset(),
            texts_sorted(string_views(sorted@)),
        decreases rest@.len(),
    {
        let ghost before_rest = string_views(rest@);
        let ghost before_sorted = string_views(sorted@);
        let x = rest.remove(0);
        assert(string_views(rest@) =~= before_rest.remove(0));
        assert(before_rest[0] == x@);
        let mut p: usize = 0;
        while p < sorted.len() && text_le_exec(sorted[p].as_str(), x.as_str())
            invariant
                0 <= p <= sorted@.len(),
                before_sorted == string_views(sorted@),
                forall|j: int| 0 <= j < p ==> text_le(#[trigger] before_sorted[j], x@),
            decreases sorted@.len() - p,
        {
            p = p + 1;
        }
        proof {
            if p < sorted@.len() {
                assert(!text_le(before_sorted[p as int], x@));
                lemma_text_le_total(before_sorted[p as int], x@);
                assert forall|j: int| p <= j < before_sorted.len() implies text_le(x@, #[trigger] before_sorted[j]) by {
                    if j > p {
                        lemma_text_le_transitive(x@, before_sorted[p as int], before_sorted[j]);
                    }
                }
            }
        }
        sorted.insert(p, x);
        proof {
            let now = string_views(sorted@);
            assert(now =~= before_sorted.insert(p as int, x@));
            assert forall|i: int, j: int| 0 <= i < j < now.len() implies text_le(#[trigger] now[i], #[trigger] now[j]) by {
                if i < p && j == p {
                } else if i < p && j > p {
                    assert(now[i] == before_sorted[i]);
                    assert(now[j] == before_sorted[j - 1]);
                } else if i == p {
                    assert(now[j] == before_sorted[j - 1]);
                } else if j < p {
                } else {
                    assert(now[i] == before_sorted[i - 1]);
                    assert(now[j] == before_sorted[j - 1]);
                }
            }
            vstd::seq_lib::to_multiset_insert(before_sorted, p as int, x@);
            vstd::seq_lib::to_multiset_remove(before_rest, 0);
            assert(now.to_multiset() == before_sorted.to_multiset().insert(x@));
            assert(string_views(rest@).to_multiset() == before_rest.to_multiset().remove(x@));
            assert(before_rest.to_multiset().count(x@) > 0) by {
                vstd::seq_lib::to_multiset_contains(before_rest, x@);
                assert(before_rest.contains(x@)) by {
                    assert(before_rest[0] == x@);
                }
            }
            assert(now.to_multiset().add(string_views(rest@).to_multiset()) =~= all.to_multiset());
        }
    }
    assert(string_views(rest@) =~= Seq::<Seq<char>>::empty());
    assert(string_views(rest@).to_multiset() =~= Multiset::<Seq<char>>::empty());
    assert(string_views(sorted@).to_multiset() =~= all.to_multiset());
    sorted
}

} // verus!
