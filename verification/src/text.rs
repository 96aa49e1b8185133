//! Character-level helpers for the line protocol: trimming, splitting a line
//! into colon-separated fields, and unsigned decimal numbers.

use vstd::prelude::*;
use vstd::string::*;

verus! {

/// Whether `c` counts as white space when a line is trimmed: the code points
/// with the Unicode `White_Space` property.
pub open spec fn is_space(c: char) -> bool {
    ||| c == ' '
    ||| ('\t' <= c && c <= '\r')
    ||| c == '\u{85}'
    ||| c == '\u{a0}'
    ||| c == '\u{1680}'
    ||| ('\u{2000}' <= c && c <= '\u{200a}')
    ||| c == '\u{2028}'
    ||| c == '\u{2029}'
    ||| c == '\u{202f}'
    ||| c == '\u{205f}'
    ||| c == '\u{3000}'
}

/// Number of white-space characters at the front of `s`.
pub open spec fn leading_spaces(s: Seq<char>) -> nat
    decreases s.len(),
{
    if s.len() > 0 && is_space(s[0]) {
        1 + leading_spaces(s.skip(1))
    } else {
        0
    }
}

/// Number of white-space characters at the back of `s`.
pub open spec fn trailing_spaces(s: Seq<char>) -> nat
    decreases s.len(),
{
    if s.len() > 0 && is_space(s.last()) {
        1 + trailing_spaces(s.drop_last())
    } else {
        0
    }
}

/// `s` without its leading and trailing white space.
pub open spec fn trimmed(s: Seq<char>) -> Seq<char> {
    let rest = s.skip(leading_spaces(s) as int);
    rest.take(rest.len() - trailing_spaces(rest))
}

/// The fields of `s` when it is cut at every `':'`. A sequence with `k` colons
/// has `k + 1` fields, some of which may be empty.
pub open spec fn split_fields(s: Seq<char>) -> Seq<Seq<char>>
    decreases s.len(),
{
    if s.len() == 0 {
        seq![Seq::<char>::empty()]
    } else {
        let before = split_fields(s.drop_last());
        if s.last() == ':' {
            before.push(Seq::<char>::empty())
        } else {
            before.drop_last().push(before.last().push(s.last()))
        }
    }
}

/// The decimal digit that stands for `d`, for `d` below ten.
pub open spec fn digit_char(d: nat) -> char {
    if d == 0 {
        '0'
    } else if d == 1 {
        '1'
    } else if d == 2 {
        '2'
    } else if d == 3 {
        '3'
    } else if d == 4 {
        '4'
    } else if d == 5 {
        '5'
    } else if d == 6 {
        '6'
    } else if d == 7 {
        '7'
    } else if d == 8 {
        '8'
    } else {
        '9'
    }
}

/// Whether `c` is one of `'0'` to `'9'`.
pub open spec fn is_digit(c: char) -> bool {
    '0' <= c && c <= '9'
}

/// The number a decimal digit stands for.
pub open spec fn digit_value(c: char) -> nat
    recommends
        is_digit(c),
{
    if c == '0' {
        0
    } else if c == '1' {
        1
    } else if c == '2' {
        2
    } else if c == '3' {
        3
    } else if c == '4' {
        4
    } else if c == '5' {
        5
    } else if c == '6' {
        6
    } else if c == '7' {
        7
    } else if c == '8' {
        8
    } else {
        9
    }
}

/// `n` written in decimal, without sign or leading zeros.
pub open spec fn decimal(n: nat) -> Seq<char>
    decreases n,
{
    if n < 10 {
        seq![digit_char(n)]
    } else {
        decimal(n / 10).push(digit_char(n % 10))
    }
}

/// Whether every character of `s` is a decimal digit.
pub open spec fn all_digits(s: Seq<char>) -> bool {
    forall|i: int| 0 <= i < s.len() ==> is_digit(#[trigger] s[i])
}

/// The number that the digit string `s` denotes; zero for the empty string.
pub open spec fn digits_value(s: Seq<char>) -> nat
    decreases s.len(),
{
    if s.len() == 0 {
        0
    } else {
        10 * digits_value(s.drop_last()) + digit_value(s.last())
    }
}

/// What remains of a number's text once one optional leading `'+'` is removed.
pub open spec fn unsigned_body(s: Seq<char>) -> Seq<char> {
    if s.len() > 0 && s[0] == '+' {
        s.skip(1)
    } else {
        s
    }
}

/// Reads `s` as an unsigned decimal number of at most `max`: an optional `'+'`
/// followed by one or more digits. Anything else, or a larger number, is `None`.
pub open spec fn parse_decimal(s: Seq<char>, max: nat) -> Option<nat> {
    let body = unsigned_body(s);
    if body.len() > 0 && all_digits(body) && digits_value(body) <= max {
        Some(digits_value(body))
    } else {
        None
    }
}

/// The characters of `s`, in order.
pub fn chars_of(s: &str) -> (out: Vec<char>)
    ensures
        out@ == s@,
{
    broadcast use vstd::string::group_string_axioms;

    let mut out: Vec<char> = Vec::new();
    for c in it: s.chars()
        invariant
            it.seq() == s@,
            out@ == it.seq().take(it.index()),
    {
        out.push(c);
    }
    out
}

/// Tells whether two texts hold the same characters.
pub fn same_text(a: &str, b: &str) -> (same: bool)
    ensures
        same == (a@ == b@),
{
    let left = chars_of(a);
    let right = chars_of(b);
    if left.len() != right.len() {
        return false;
    }
    let mut i: usize = 0;
    while i < left.len()
        invariant
            left@ == a@,
            right@ == b@,
            left@.len() == right@.len(),
            i <= left@.len(),
            forall|j: int| 0 <= j < i ==> left@[j] == right@[j],
        decreases left@.len() - i,
    {
        if left[i] != right[i] {
            return false;
        }
        i += 1;
    }
    assert(a@ =~= b@);
    true
}

/// Tells whether `c` is white space.
pub fn is_whitespace(c: char) -> (b: bool)
    ensures
        b == is_space(c),
{
    c == ' ' || ('\t' <= c && c <= '\r') || c == '\u{85}' || c == '\u{a0}' || c == '\u{1680}' || (
    '\u{2000}' <= c && c <= '\u{200a}') || c == '\u{2028}' || c == '\u{2029}' || c == '\u{202f}'
        || c == '\u{205f}' || c == '\u{3000}'
}

proof fn lemma_leading_spaces_step(s: Seq<char>, i: int)
    requires
        0 <= i < s.len(),
        is_space(s[i]),
    ensures
        leading_spaces(s.skip(i)) == 1 + leading_spaces(s.skip(i + 1)),
{
    assert(s.skip(i).skip(1) =~= s.skip(i + 1));
}

proof fn lemma_trailing_spaces_step(s: Seq<char>, j: int)
    requires
        0 < j <= s.len(),
        is_space(s[j - 1]),
    ensures
        trailing_spaces(s.take(j)) == 1 + trailing_spaces(s.take(j - 1)),
{
    assert(s.take(j).drop_last() =~= s.take(j - 1));
}

/// Removes leading and trailing white space from `s`.
pub fn trim(s: &str) -> (out: &str)
    ensures
        out@ == trimmed(s@),
{
    let chars = chars_of(s);
    let n = chars.len();
    let mut start: usize = 0;
    assert(s@.skip(0) =~= s@);
    while start < n && is_whitespace(chars[start])
        invariant
            chars@ == s@,
            n == chars@.len(),
            start <= n,
            leading_spaces(s@) == start + leading_spaces(s@.skip(start as int)),
        decreases n - start,
    {
        proof {
            lemma_leading_spaces_step(s@, start as int);
        }
        start += 1;
    }
    let ghost rest = s@.skip(start as int);
    assert(leading_spaces(rest) == 0) by {
        if start < n {
            assert(rest[0] == s@[start as int]);
        }
    }
    let mut end: usize = n;
    assert(rest.take(n - start) =~= rest);
    while end > start && is_whitespace(chars[end - 1])
        invariant
            chars@ == s@,
            n == chars@.len(),
            start <= end <= n,
            rest == s@.skip(start as int),
            trailing_spaces(rest) == (n - end) + trailing_spaces(rest.take(end - start)),
        decreases end,
    {
        proof {
            assert(rest[end - start - 1] == s@[end - 1]);
            lemma_trailing_spaces_step(rest, end - start);
        }
        end -= 1;
    }
    proof {
        let kept = rest.take(end - start);
        assert(trailing_spaces(kept) == 0) by {
            if end > start {
                assert(kept.last() == s@[end - 1]);
            }
        }
        assert(s@.subrange(start as int, end as int) =~= kept);
    }
    s.substring_char(start, end)
}

/// The text of each string of `fields`, in order.
pub open spec fn texts(fields: Seq<String>) -> Seq<Seq<char>> {
    Seq::new(fields.len(), |i: int| fields[i]@)
}

/// Cuts `s` at every `':'`.
pub fn split(s: &str) -> (fields: Vec<String>)
    ensures
        texts(fields@) == split_fields(s@),
{
    let chars = chars_of(s);
    let n = chars.len();
    let mut fields: Vec<String> = Vec::new();
    let mut start: usize = 0;
    let mut i: usize = 0;
    proof {
        assert(s@.take(0) =~= Seq::<char>::empty());
        assert(texts(fields@).push(s@.subrange(0, 0)) =~= seq![Seq::<char>::empty()]);
    }
    while i < n
        invariant
            chars@ == s@,
            n == chars@.len(),
            start <= i <= n,
            split_fields(s@.take(i as int)) == texts(fields@).push(
                s@.subrange(start as int, i as int),
            ),
        decreases n - i,
    {
        proof {
            assert(s@.take(i + 1).drop_last() =~= s@.take(i as int));
            assert(s@.take(i + 1).last() == s@[i as int]);
            let before = texts(fields@).push(s@.subrange(start as int, i as int));
            assert(before.drop_last() =~= texts(fields@));
        }
        if chars[i] == ':' {
            let field = String::from_str(s.substring_char(start, i));
            let ghost old_fields = fields@;
            fields.push(field);
            proof {
                assert(texts(fields@) =~= texts(old_fields).push(
                    s@.subrange(start as int, i as int),
                ));
                assert(s@.subrange(i + 1, i + 1) =~= Seq::<char>::empty());
            }
            start = i + 1;
        } else {
            proof {
                assert(s@.subrange(start as int, i as int).push(s@[i as int]) =~= s@.subrange(
                    start as int,
                    i + 1,
                ));
            }
        }
        i += 1;
    }
    let field = String::from_str(s.substring_char(start, n));
    let ghost old_fields = fields@;
    fields.push(field);
    proof {
        assert(s@.take(n as int) =~= s@);
        assert(texts(fields@) =~= texts(old_fields).push(s@.subrange(start as int, n as int)));
    }
    fields
}

/// The one-character text of the decimal digit `d`.
fn digit_text(d: u32) -> (out: &'static str)
    requires
        d < 10,
    ensures
        out@ == seq![digit_char(d as nat)],
{
    proof {
        reveal_strlit("0");
        reveal_strlit("1");
        reveal_strlit("2");
        reveal_strlit("3");
        reveal_strlit("4");
        reveal_strlit("5");
        reveal_strlit("6");
        reveal_strlit("7");
        reveal_strlit("8");
        reveal_strlit("9");
    }
    let out = if d == 0 {
        "0"
    } else if d == 1 {
        "1"
    } else if d == 2 {
        "2"
    } else if d == 3 {
        "3"
    } else if d == 4 {
        "4"
    } else if d == 5 {
        "5"
    } else if d == 6 {
        "6"
    } else if d == 7 {
        "7"
    } else if d == 8 {
        "8"
    } else {
        "9"
    };
    assert(out@ =~= seq![digit_char(d as nat)]);
    out
}

/// Writes `n` in decimal.
pub fn format_decimal(n: u32) -> (out: String)
    ensures
        out@ == decimal(n as nat),
    decreases n,
{
    if n < 10 {
        String::from_str(digit_text(n))
    } else {
        let mut out = format_decimal(n / 10);
        out.append(digit_text(n % 10));
        out
    }
}

/// The number a decimal digit stands for, or `None` for any other character.
fn digit_of(c: char) -> (d: Option<u64>)
    ensures
        d is Some <==> is_digit(c),
        d matches Some(v) ==> v == digit_value(c),
{
    if c == '0' {
        Some(0)
    } else if c == '1' {
        Some(1)
    } else if c == '2' {
        Some(2)
    } else if c == '3' {
        Some(3)
    } else if c == '4' {
        Some(4)
    } else if c == '5' {
        Some(5)
    } else if c == '6' {
        Some(6)
    } else if c == '7' {
        Some(7)
    } else if c == '8' {
        Some(8)
    } else if c == '9' {
        Some(9)
    } else {
        None
    }
}

/// A digit string denotes at least as much as any of its prefixes.
proof fn lemma_digits_value_prefix(s: Seq<char>, k: int)
    requires
        0 <= k <= s.len(),
    ensures
        digits_value(s.take(k)) <= digits_value(s),
    decreases s.len(),
{
    if k == s.len() {
        assert(s.take(k) =~= s);
    } else {
        assert(s.drop_last().take(k) =~= s.take(k));
        lemma_digits_value_prefix(s.drop_last(), k);
    }
}

/// Reads an unsigned decimal number of at most `max` from `s`.
pub fn parse_unsigned(s: &str, max: u32) -> (out: Option<u32>)
    ensures
        out is Some <==> parse_decimal(s@, max as nat) is Some,
        out matches Some(v) ==> parse_decimal(s@, max as nat) == Some(v as nat),
{
    let chars = chars_of(s);
    let n = chars.len();
    let first: usize = if n > 0 && chars[0] == '+' {
        1
    } else {
        0
    };
    let ghost body = unsigned_body(s@);
    assert(body == s@.skip(first as int));
    if first == n {
        return None;
    }
    let mut value: u64 = 0;
    let mut i: usize = first;
    while i < n
        invariant
            chars@ == s@,
            n == chars@.len(),
            first <= i <= n,
            first < n,
            body == unsigned_body(s@),
            body == s@.skip(first as int),
            all_digits(body.take(i - first)),
            value == digits_value(body.take(i - first)),
            value <= max,
        decreases n - i,
    {
        let ghost seen = body.take(i - first);
        let ghost next = body.take(i + 1 - first);
        proof {
            assert(next.drop_last() =~= seen);
            assert(next.last() == s@[i as int]);
            assert(body[i - first] == s@[i as int]);
        }
        match digit_of(chars[i]) {
            None => {
                assert(!all_digits(body));
                return None;
            },
            Some(d) => {
                let grown: u64 = value * 10 + d;
                assert(grown == digits_value(next));
                if grown > max as u64 {
                    proof {
                        lemma_digits_value_prefix(body, i + 1 - first);
                    }
                    return None;
                }
                assert(all_digits(next)) by {
                    assert forall|j: int| 0 <= j < next.len() implies is_digit(
                        #[trigger] next[j],
                    ) by {
                        if j < seen.len() {
                            assert(next[j] == seen[j]);
                        }
                    }
                }
                value = grown;
            },
        }
        i += 1;
    }
    assert(body.take(n - first) =~= body);
    Some(value as u32)
}

/// Whether `s` holds no `':'`.
pub open spec fn colon_free(s: Seq<char>) -> bool {
    forall|i: int| 0 <= i < s.len() ==> #[trigger] s[i] != ':'
}

/// A number's decimal text is a non-empty string of digits that denotes the
/// number itself.
pub proof fn lemma_decimal_is_digits(n: nat)
    ensures
        decimal(n).len() > 0,
        all_digits(decimal(n)),
        digits_value(decimal(n)) == n,
    decreases n,
{
    if n < 10 {
        assert(decimal(n).drop_last() =~= Seq::<char>::empty());
        assert(digits_value(decimal(n).drop_last()) == 0);
    } else {
        lemma_decimal_is_digits(n / 10);
        let head = decimal(n / 10);
        let whole = decimal(n);
        assert(whole.drop_last() =~= head);
        assert forall|i: int| 0 <= i < whole.len() implies is_digit(#[trigger] whole[i]) by {
            if i < head.len() {
                assert(whole[i] == head[i]);
            }
        }
    }
}

/// Reading back the decimal text of a number gives the number, as long as it
/// does not exceed the bound.
pub proof fn lemma_parse_decimal_of_decimal(n: nat, max: nat)
    requires
        n <= max,
    ensures
        parse_decimal(decimal(n), max) == Some(n),
{
    lemma_decimal_is_digits(n);
    assert(is_digit(decimal(n)[0]));
}

/// Appending text without colons extends the last field and leaves the others
/// as they were.
pub proof fn lemma_split_fields_extend(s: Seq<char>, t: Seq<char>)
    requires
        colon_free(t),
    ensures
        split_fields(s).len() > 0,
        split_fields(s + t) == split_fields(s).drop_last().push(split_fields(s).last() + t),
    decreases t.len(),
{
    lemma_split_fields_nonempty(s);
    let fields = split_fields(s);
    if t.len() == 0 {
        assert(s + t =~= s);
        assert(fields.last() + t =~= fields.last());
        assert(fields.drop_last().push(fields.last()) =~= fields);
    } else {
        let shorter = t.drop_last();
        assert(colon_free(shorter)) by {
            assert forall|i: int| 0 <= i < shorter.len() implies #[trigger] shorter[i] != ':' by {
                assert(shorter[i] == t[i]);
            }
        }
        lemma_split_fields_extend(s, shorter);
        assert((s + t).drop_last() =~= s + shorter);
        assert((s + t).last() == t.last());
        let before = split_fields(s + shorter);
        assert(before.last() == fields.last() + shorter);
        assert(before.drop_last() =~= fields.drop_last());
        assert((fields.last() + shorter).push(t.last()) =~= fields.last() + t);
    }
}

/// Every sequence has at least one field.
pub proof fn lemma_split_fields_nonempty(s: Seq<char>)
    ensures
        split_fields(s).len() > 0,
    decreases s.len(),
{
    if s.len() > 0 {
        lemma_split_fields_nonempty(s.drop_last());
    }
}

/// Four colon-free texts joined by colons split back into those four texts.
pub proof fn lemma_split_fields_of_joined(
    a: Seq<char>,
    b: Seq<char>,
    c: Seq<char>,
    d: Seq<char>,
)
    requires
        colon_free(a),
        colon_free(b),
        colon_free(c),
        colon_free(d),
    ensures
        split_fields(a + seq![':'] + b + seq![':'] + c + seq![':'] + d) == seq![a, b, c, d],
{
    let colon = seq![':'];
    let empty = Seq::<char>::empty();
    assert(split_fields(empty) =~= seq![empty]);
    lemma_split_fields_extend(empty, a);
    assert(empty + a =~= a);
    assert(split_fields(a) =~= seq![a]);

    let first = a + colon;
    assert(first.drop_last() =~= a);
    assert(split_fields(first) =~= seq![a, empty]);
    lemma_split_fields_extend(first, b);
    assert(empty + b =~= b);
    assert(split_fields(first + b) =~= seq![a, b]);

    let second = first + b + colon;
    assert(second.drop_last() =~= first + b);
    assert(split_fields(second) =~= seq![a, b, empty]);
    lemma_split_fields_extend(second, c);
    assert(empty + c =~= c);
    assert(split_fields(second + c) =~= seq![a, b, c]);

    let third = second + c + colon;
    assert(third.drop_last() =~= second + c);
    assert(split_fields(third) =~= seq![a, b, c, empty]);
    lemma_split_fields_extend(third, d);
    assert(empty + d =~= d);
    assert(split_fields(third + d) =~= seq![a, b, c, d]);
}

} // verus!
