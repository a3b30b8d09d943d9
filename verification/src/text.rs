//! Character-level text handling shared by the parsers and the interface.

use vstd::prelude::*;
use vstd::utf8::*;

verus! {

/// `String::push` appends the given character to the end of the string.
pub assume_specification[ String::push ](s: &mut String, c: char)
    ensures
        final(s)@ == old(s)@.push(c),
;

/// What `String::from_utf8_lossy` makes of a byte sequence.
pub uninterp spec fn utf8_lossy(bytes: Seq<u8>) -> Seq<char>;

/// The text that bytes spell, with replacement characters where they spell none.
pub open spec fn text_of(bytes: Seq<u8>) -> Seq<char> {
    if valid_utf8(bytes) {
        decode_utf8(bytes)
    } else {
        utf8_lossy(bytes)
    }
}

/// `String::from_utf8_lossy`: the text of `bytes`, with replacement characters
/// where they are not UTF-8. Bytes that are UTF-8 come back unchanged.
#[verifier::external_body]
pub(crate) fn decode_lossy(bytes: &[u8]) -> (text: String)
    ensures
        text@ == utf8_lossy(bytes@),
        valid_utf8(bytes@) ==> encode_utf8(text@) == bytes@,
{
    String::from_utf8_lossy(bytes).into_owned()
}

/// `String::from_utf8`: succeeds exactly on UTF-8, and then holds those bytes.
#[verifier::external_body]
pub(crate) fn decode_strict(bytes: Vec<u8>) -> (text: Option<String>)
    ensures
        text is Some <==> valid_utf8(bytes@),
        text matches Some(s) ==> encode_utf8(s@) == bytes@,
{
    String::from_utf8(bytes).ok()
}

/// The characters of a text.
pub fn chars_of(s: &str) -> (v: Vec<char>)
    ensures
        v@ == s@,
{
    let mut v: Vec<char> = Vec::new();
    for c in it: s.chars()
        invariant
            v@ == s@.take(it.index() as int),
            it.seq() == s@,
    {
        v.push(c);
        assert(v@ =~= s@.take(it.index() + 1));
    }
    assert(s@ =~= s@.take(s@.len() as int));
    v
}

/// The text made of `chars[from..to]`.
pub fn string_of(chars: &Vec<char>, from: usize, to: usize) -> (s: String)
    requires
        from <= to <= chars@.len(),
    ensures
        s@ == chars@.subrange(from as int, to as int),
{
    let mut s = String::new();
    let mut i: usize = from;
    while i < to
        invariant
            from <= i <= to <= chars@.len(),
            s@ == chars@.subrange(from as int, i as int),
        decreases to - i,
    {
        s.push(chars[i]);
        i += 1;
        assert(s@ =~= chars@.subrange(from as int, i as int));
    }
    s
}

/// Whether `chars[from..to]` spells `text`.
pub fn range_is(chars: &Vec<char>, from: usize, to: usize, text: &str) -> (r: bool)
    requires
        from <= to <= chars@.len(),
    ensures
        r == (chars@.subrange(from as int, to as int) == text@),
{
    let other = chars_of(text);
    if other.len() != to - from {
        return false;
    }
    let mut i: usize = 0;
    while i < other.len()
        invariant
            other@ == text@,
            other.len() == to - from,
            from <= to <= chars@.len(),
            i <= other.len(),
            forall|j: int| 0 <= j < i ==> chars@[from + j] == other@[j],
        decreases other.len() - i,
    {
        if chars[from + i] != other[i] {
            assert(chars@.subrange(from as int, to as int)[i as int] != text@[i as int]);
            return false;
        }
        i += 1;
    }
    assert(chars@.subrange(from as int, to as int) =~= text@);
    true
}

/// Whether `text` starts with `prefix`.
pub open spec fn has_prefix(text: Seq<char>, prefix: Seq<char>) -> bool {
    prefix.len() <= text.len() && text.take(prefix.len() as int) == prefix
}

/// If `chars[from..to]` starts with `prefix`, where the rest begins.
pub fn strip_prefix(chars: &Vec<char>, from: usize, to: usize, prefix: &str) -> (r: Option<usize>)
    requires
        from <= to <= chars@.len(),
    ensures
        ({
            let text = chars@.subrange(from as int, to as int);
            match r {
                Some(at) => has_prefix(text, prefix@) && at == from + prefix@.len() && at <= to,
                None => !has_prefix(text, prefix@),
            }
        }),
{
    let p = chars_of(prefix);
    let ghost text = chars@.subrange(from as int, to as int);
    if p.len() > to - from {
        return None;
    }
    let cut: usize = from + p.len();
    assert(chars@.subrange(from as int, cut as int) =~= text.take(p@.len() as int));
    if range_is(chars, from, cut, prefix) {
        Some(cut)
    } else {
        None
    }
}

/// The position of the first `c` in `s`, or `s.len()` where there is none.
pub open spec fn first_index(s: Seq<char>, c: char) -> int
    decreases s.len(),
{
    if s.len() == 0 || s[0] == c {
        0
    } else {
        1 + first_index(s.drop_first(), c)
    }
}

/// `first_index` is the place it claims to be.
pub proof fn lemma_first_index(s: Seq<char>, c: char)
    ensures
        0 <= first_index(s, c) <= s.len(),
        forall|j: int| 0 <= j < first_index(s, c) ==> s[j] != c,
        first_index(s, c) < s.len() ==> s[first_index(s, c)] == c,
    decreases s.len(),
{
    if s.len() != 0 && s[0] != c {
        let rest = s.drop_first();
        lemma_first_index(rest, c);
        assert forall|j: int| 0 <= j < first_index(s, c) implies s[j] != c by {
            if j > 0 {
                assert(rest[j - 1] == s[j]);
            }
        }
    }
}

/// The first `c` in `chars[from..to]`, or `to` where there is none.
pub fn find_char(chars: &Vec<char>, from: usize, to: usize, c: char) -> (at: usize)
    requires
        from <= to <= chars@.len(),
    ensures
        from <= at <= to,
        at == from + first_index(chars@.subrange(from as int, to as int), c),
{
    let ghost text = chars@.subrange(from as int, to as int);
    let mut i: usize = from;
    while i < to
        invariant_except_break
            forall|j: int| from <= j < i ==> chars@[j] != c,
        invariant
            from <= i <= to <= chars@.len(),
            text == chars@.subrange(from as int, to as int),
        ensures
            forall|j: int| from <= j < i ==> chars@[j] != c,
            i < to ==> chars@[i as int] == c,
        decreases to - i,
    {
        if chars[i] == c {
            break;
        }
        i += 1;
    }
    proof {
        lemma_first_index(text, c);
        let at = first_index(text, c);
        if at < i - from {
            assert(text[at] == chars@[from + at]);
        }
        if at > i - from {
            assert(text[i - from] == chars@[i as int]);
        }
    }
    i
}

/// `s` cut at the first `c`: what stands before it and what stands after it.
pub open spec fn split_once(s: Seq<char>, c: char) -> Option<(Seq<char>, Seq<char>)> {
    let at = first_index(s, c);
    if at < s.len() {
        Some((s.take(at), s.skip(at + 1)))
    } else {
        None
    }
}

/// `s` cut at every `c`. There is always at least one part.
pub open spec fn split(s: Seq<char>, c: char) -> Seq<Seq<char>>
    decreases s.len(),
    via split_decreases
{
    match split_once(s, c) {
        None => seq![s],
        Some((head, rest)) => seq![head] + split(rest, c),
    }
}

#[via_fn]
proof fn split_decreases(s: Seq<char>, c: char) {
    lemma_first_index(s, c);
}

/// Whether every character is an ASCII decimal digit.
pub open spec fn all_digits(s: Seq<char>) -> bool {
    forall|i: int| 0 <= i < s.len() ==> '0' <= #[trigger] s[i] <= '9'
}

/// The number that a run of decimal digits spells.
pub open spec fn decimal_value(s: Seq<char>) -> int
    decreases s.len(),
{
    if s.len() == 0 {
        0
    } else {
        10 * decimal_value(s.drop_last()) + (s.last() as int - '0' as int)
    }
}

/// A decimal integer with an optional sign, as an `i32`.
pub open spec fn i32_text(s: Seq<char>) -> Option<i32> {
    let signed = s.len() > 0 && (s[0] == '-' || s[0] == '+');
    let digits = if signed {
        s.skip(1)
    } else {
        s
    };
    let value = if signed && s[0] == '-' {
        -decimal_value(digits)
    } else {
        decimal_value(digits)
    };
    if digits.len() > 0 && all_digits(digits) && i32::MIN <= value <= i32::MAX {
        Some(value as i32)
    } else {
        None
    }
}

/// Appending digits never makes the number smaller.
proof fn lemma_decimal_grows(s: Seq<char>, i: int)
    requires
        0 <= i <= s.len(),
        all_digits(s),
    ensures
        0 <= decimal_value(s.take(i)) <= decimal_value(s),
    decreases s.len(),
{
    if i == s.len() {
        assert(s.take(i) =~= s);
        if i > 0 {
            assert(all_digits(s.drop_last()));
            lemma_decimal_grows(s.drop_last(), i - 1);
            assert(s.drop_last().take(i - 1) =~= s.drop_last());
        }
    } else {
        assert(all_digits(s.drop_last()));
        lemma_decimal_grows(s.drop_last(), i);
        assert(s.drop_last().take(i) =~= s.take(i));
    }
}

/// Parses `chars[from..to]` as a decimal `i32` with an optional sign.
pub fn parse_i32(chars: &Vec<char>, from: usize, to: usize) -> (r: Option<i32>)
    requires
        from <= to <= chars@.len(),
    ensures
        r == i32_text(chars@.subrange(from as int, to as int)),
{
    let ghost text = chars@.subrange(from as int, to as int);
    if from == to {
        return None;
    }
    assert(text[0] == chars@[from as int]);
    let negative: bool = chars[from] == '-';
    let signed: bool = negative || chars[from] == '+';
    let start: usize = if signed {
        from + 1
    } else {
        from
    };
    let ghost digits = chars@.subrange(start as int, to as int);
    assert(digits =~= if signed {
        text.skip(1)
    } else {
        text
    });
    if start == to {
        return None;
    }
    let mut value: i64 = 0;
    let mut too_big: bool = false;
    let mut i: usize = start;
    while i < to
        invariant
            start <= i <= to <= chars@.len(),
            from < to,
            text == chars@.subrange(from as int, to as int),
            digits == chars@.subrange(start as int, to as int),
            signed == (text[0] == '-' || text[0] == '+'),
            digits == if signed {
                text.skip(1)
            } else {
                text
            },
            all_digits(digits.take(i - start)),
            0 <= value <= 2147483648,
            !too_big ==> value == decimal_value(digits.take(i - start)),
            too_big ==> decimal_value(digits.take(i - start)) > 2147483648,
        decreases to - i,
    {
        let c: char = chars[i];
        let ghost next = digits.take(i + 1 - start);
        assert(next.drop_last() =~= digits.take(i - start));
        assert(next.last() == c);
        if c < '0' || c > '9' {
            assert(digits[i - start] == c);
            assert(!all_digits(digits));
            return None;
        }
        assert(all_digits(next)) by {
            assert forall|j: int| 0 <= j < next.len() implies '0' <= #[trigger] next[j] <= '9' by {
                if j < i - start {
                    assert(next[j] == digits.take(i - start)[j]);
                }
            }
        }
        let digit: i64 = c as i64 - '0' as i64;
        if !too_big {
            let grown: i64 = value * 10 + digit;
            if grown > 2147483648 {
                too_big = true;
            } else {
                value = grown;
            }
        }
        i += 1;
    }
    assert(digits.take(to - start) =~= digits);
    if too_big {
        return None;
    }
    if negative {
        Some((-value) as i32)
    } else if value <= 2147483647 {
        Some(value as i32)
    } else {
        None
    }
}

/// A number below ten as a digit.
pub open spec fn digit_char(d: int) -> char {
    (0x30 + d) as char
}

/// A number written in decimal.
pub open spec fn decimal_text(n: int) -> Seq<char>
    decreases n,
{
    if n < 10 {
        seq![digit_char(n)]
    } else {
        decimal_text(n / 10).push(digit_char(n % 10))
    }
}

/// Appends a number in decimal.
pub fn push_decimal(n: usize, out: &mut Vec<char>)
    ensures
        final(out)@ == old(out)@ + decimal_text(n as int),
    decreases n,
{
    if n >= 10 {
        push_decimal(n / 10, out);
    }
    let d: u8 = (n % 10) as u8;
    out.push((0x30 + d) as char);
    assert(out@ =~= old(out)@ + decimal_text(n as int));
}

/// Appends a text.
pub fn push_text(text: &str, out: &mut Vec<char>)
    ensures
        final(out)@ == old(out)@ + text@,
{
    let mut chars = chars_of(text);
    out.append(&mut chars);
}

/// Whether two texts are the same.
pub fn same_text(a: &str, b: &str) -> (yes: bool)
    ensures
        yes == (a@ == b@),
{
    let chars = chars_of(a);
    let n: usize = chars.len();
    assert(chars@.subrange(0, n as int) =~= a@);
    range_is(&chars, 0, n, b)
}

/// What a number is written as reads back as the number.
pub proof fn law_decimal_text_reads_back(n: int)
    requires
        n >= 0,
    ensures
        all_digits(decimal_text(n)),
        decimal_value(decimal_text(n)) == n,
    decreases n,
{
    if n >= 10 {
        law_decimal_text_reads_back(n / 10);
        assert(decimal_text(n).drop_last() =~= decimal_text(n / 10));
    } else {
        assert(decimal_text(n).drop_last() =~= Seq::empty());
        assert(decimal_value(Seq::empty()) == 0);
    }
}

proof fn lemma_index_after(a: Seq<char>, c: char, b: Seq<char>)
    requires
        !a.contains(c),
    ensures
        first_index(a.push(c) + b, c) == a.len(),
        first_index(a, c) == a.len(),
{
    let s = a.push(c) + b;
    lemma_first_index(s, c);
    lemma_first_index(a, c);
    assert(s[a.len() as int] == c);
    let at = first_index(s, c);
    if at < a.len() {
        assert(a[at] == s[at]);
        assert(a.contains(c));
    }
    if at > a.len() {
        assert(s[a.len() as int] != c);
    }
    if first_index(a, c) < a.len() {
        assert(a.contains(a[first_index(a, c)]));
    }
}

/// Cutting a text once gives back the two texts that a separator joined, and a
/// text without the separator is not cut.
pub proof fn law_cutting_undoes_joining(a: Seq<char>, c: char, b: Seq<char>)
    requires
        !a.contains(c),
    ensures
        split_once(a.push(c) + b, c) == Some((a, b)),
        split_once(a, c) is None,
{
    lemma_index_after(a, c, b);
    let s = a.push(c) + b;
    assert(s.take(a.len() as int) =~= a);
    assert(s.skip(a.len() as int + 1) =~= b);
}

/// Splitting a text gives back the parts that a separator joined.
pub proof fn law_splitting_undoes_joining(a: Seq<char>, c: char, b: Seq<char>)
    requires
        !a.contains(c),
    ensures
        split(a.push(c) + b, c) == seq![a] + split(b, c),
        split(a, c) == seq![a],
{
    law_cutting_undoes_joining(a, c, b);
}

/// A text that was put behind a prefix starts with it, and what is left without
/// the prefix is the text.
pub proof fn law_prefixes_come_off(p: Seq<char>, s: Seq<char>)
    ensures
        has_prefix(p + s, p),
        (p + s).skip(p.len() as int) == s,
        forall|t: Seq<char>| #[trigger] has_prefix(t, p) ==> t == p + t.skip(p.len() as int),
{
    assert((p + s).take(p.len() as int) =~= p);
    assert((p + s).skip(p.len() as int) =~= s);
    assert forall|t: Seq<char>| #[trigger] has_prefix(t, p) implies t == p + t.skip(
        p.len() as int,
    ) by {
        assert(t =~= t.take(p.len() as int) + t.skip(p.len() as int));
    }
}

/// Digits count ten times as much with every place to the left.
pub proof fn law_digits_count_by_place(s: Seq<char>, d: char)
    ensures
        decimal_value(s.push(d)) == 10 * decimal_value(s) + (d as int - 0x30),
        decimal_value(Seq::<char>::empty()) == 0,
{
    assert(s.push(d).drop_last() =~= s);
}

/// Every 32-bit integer is read from its decimal text: with a minus where it is
/// negative, and with a plus or none where it is not.
pub proof fn law_integers_are_read_from_their_text(n: i32)
    ensures
        n >= 0 ==> i32_text(decimal_text(n as int)) == Some(n),
        n >= 0 ==> i32_text(seq!['+'] + decimal_text(n as int)) == Some(n),
        n <= 0 ==> i32_text(seq!['-'] + decimal_text(-n)) == Some(n),
{
    if n >= 0 {
        let t = decimal_text(n as int);
        law_decimal_text_reads_back(n as int);
        lemma_decimal_text_some(n as int);
        assert('0' <= t[0] <= '9');
        assert((seq!['+'] + t).skip(1) =~= t);
    }
    if n <= 0 {
        let t = decimal_text(-n);
        law_decimal_text_reads_back(-n);
        lemma_decimal_text_some(-n);
        assert((seq!['-'] + t).skip(1) =~= t);
    }
}

proof fn lemma_decimal_text_some(n: int)
    ensures
        decimal_text(n).len() >= 1,
{
}

/// Nothing but digits, after one sign or none, is an integer.
pub proof fn law_only_digits_are_integers(s: Seq<char>)
    requires
        i32_text(s) is Some,
    ensures
        s.len() > 0,
        forall|i: int| 1 <= i < s.len() ==> '0' <= #[trigger] s[i] <= '9',
        s.len() == 1 || !(s[0] == '+' || s[0] == '-') ==> '0' <= s[0] <= '9',
        '0' <= s[0] <= '9' || s[0] == '+' || s[0] == '-',
{
    let signed = s[0] == '-' || s[0] == '+';
    let d = if signed {
        s.skip(1)
    } else {
        s
    };
    assert(all_digits(d));
    assert forall|i: int| 1 <= i < s.len() implies '0' <= #[trigger] s[i] <= '9' by {
        if signed {
            assert(d[i - 1] == s[i]);
        } else {
            assert(d[i] == s[i]);
        }
    }
    if !signed {
        assert('0' <= d[0] <= '9');
    }
}

/// Bytes that spell a text stand for that text.
pub proof fn law_text_survives_its_bytes(text: Seq<char>)
    ensures
        text_of(encode_utf8(text)) == text,
{
    encode_utf8_valid_utf8(text);
    encode_utf8_decode_utf8(text);
}

} // verus!
