//! Character-level helpers: conversions between strings and character
//! sequences, ASCII case folding, decimal rendering and binary parsing.

use vstd::prelude::*;

verus! {

/// `String::push` appends one character to the end of the string.
pub assume_specification[ std::string::String::push ](s: &mut std::string::String, c: char)
    ensures
        final(s)@ == old(s)@.push(c),
;

/// The characters of `s`, in order.
pub fn chars_of(s: &str) -> (out: Vec<char>)
    ensures
        out@ == s@,
{
    let mut out: Vec<char> = Vec::new();
    for c in it: s.chars()
        invariant
            it.seq() == s@,
            out@.len() == it.index(),
            forall|j: int| 0 <= j < out@.len() ==> out@[j] == it.seq()[j],
    {
        out.push(c);
    }
    assert(out@ =~= s@);
    out
}

/// The string made of `chars`, in order.
pub fn string_of(chars: &[char]) -> (out: String)
    ensures
        out@ == chars@,
{
    let mut out = String::new();
    let mut i: usize = 0;
    while i < chars.len()
        invariant
            i <= chars@.len(),
            out@ == chars@.take(i as int),
        decreases chars@.len() - i,
    {
        out.push(chars[i]);
        i += 1;
        assert(chars@.take(i as int) =~= chars@.take(i - 1).push(chars@[i - 1]));
    }
    assert(chars@.take(i as int) =~= chars@);
    out
}

/// `first` followed by `second`.
pub fn joined(first: &str, second: &str) -> (out: String)
    ensures
        out@ == first@ + second@,
{
    let mut chars = chars_of(first);
    let mut rest = chars_of(second);
    chars.append(&mut rest);
    string_of(chars.as_slice())
}

/// A copy of `chars[from..to]`.
pub fn chars_between(chars: &[char], from: usize, to: usize) -> (out: Vec<char>)
    requires
        from <= to <= chars@.len(),
    ensures
        out@ == chars@.subrange(from as int, to as int),
{
    let mut out: Vec<char> = Vec::new();
    let mut i: usize = from;
    while i < to
        invariant
            from <= i <= to <= chars@.len(),
            out@ == chars@.subrange(from as int, i as int),
        decreases to - i,
    {
        out.push(chars[i]);
        i += 1;
        assert(chars@.subrange(from as int, i as int) =~= chars@.subrange(from as int, i - 1).push(
            chars@[i - 1],
        ));
    }
    out
}

/// Whether two character slices hold the same text.
pub fn same_chars(a: &[char], b: &[char]) -> (same: bool)
    ensures
        same == (a@ == b@),
{
    if a.len() != b.len() {
        return false;
    }
    let mut i: usize = 0;
    while i < a.len()
        invariant
            i <= a@.len(),
            a@.len() == b@.len(),
            forall|j: int| 0 <= j < i ==> a@[j] == b@[j],
        decreases a@.len() - i,
    {
        if a[i] != b[i] {
            return false;
        }
        i += 1;
    }
    assert(a@ =~= b@);
    true
}

/// Whether `text` begins with `prefix`.
pub open spec fn has_prefix(text: Seq<char>, prefix: Seq<char>) -> bool {
    prefix.len() <= text.len() && text.take(prefix.len() as int) == prefix
}

/// Whether `text` begins with `prefix`.
pub fn starts_with(text: &[char], prefix: &[char]) -> (yes: bool)
    ensures
        yes == has_prefix(text@, prefix@),
{
    if prefix.len() > text.len() {
        return false;
    }
    let mut i: usize = 0;
    while i < prefix.len()
        invariant
            i <= prefix@.len() <= text@.len(),
            forall|j: int| 0 <= j < i ==> text@[j] == prefix@[j],
        decreases prefix@.len() - i,
    {
        if text[i] != prefix[i] {
            assert(text@.take(prefix@.len() as int)[i as int] != prefix@[i as int]);
            return false;
        }
        i += 1;
    }
    assert(text@.take(prefix@.len() as int) =~= prefix@);
    true
}

/// A letter or a digit of ASCII.
pub open spec fn is_alnum(c: char) -> bool {
    ('a' <= c && c <= 'z') || ('A' <= c && c <= 'Z') || ('0' <= c && c <= '9')
}

/// `c` with a lower-case ASCII letter replaced by its capital.
pub open spec fn upper_char(c: char) -> char {
    if 'a' <= c && c <= 'z' {
        ((c as u8) - 32) as char
    } else {
        c
    }
}

/// `s` with every lower-case ASCII letter replaced by its capital.
pub open spec fn upper(s: Seq<char>) -> Seq<char> {
    Seq::new(s.len(), |i: int| upper_char(s[i]))
}

/// `c` with a lower-case ASCII letter replaced by its capital.
pub fn to_upper(c: char) -> (u: char)
    ensures
        u == upper_char(c),
{
    if c >= 'a' && c <= 'z' {
        ((c as u8) - 32) as char
    } else {
        c
    }
}

/// Whether `a`, with its ASCII letters capitalised, reads `b`.
pub fn upper_equals(a: &[char], b: &[char]) -> (same: bool)
    ensures
        same == (upper(a@) == b@),
{
    if a.len() != b.len() {
        assert(upper(a@).len() != b@.len());
        return false;
    }
    let mut i: usize = 0;
    while i < a.len()
        invariant
            i <= a@.len(),
            a@.len() == b@.len(),
            forall|j: int| 0 <= j < i ==> upper_char(a@[j]) == b@[j],
        decreases a@.len() - i,
    {
        if to_upper(a[i]) != b[i] {
            assert(upper(a@)[i as int] != b@[i as int]);
            return false;
        }
        i += 1;
    }
    assert(upper(a@) =~= b@);
    true
}

/// The character for a decimal digit below ten.
pub open spec fn digit_char(d: nat) -> char {
    (48 + d) as u8 as char
}

/// `n` in decimal, most significant digit first, without leading zeros.
pub open spec fn decimal(n: nat) -> Seq<char>
    decreases n,
{
    if n < 10 {
        seq![digit_char(n)]
    } else {
        decimal(n / 10).push(digit_char(n % 10))
    }
}

/// Appends `v` in decimal to `out`.
pub fn push_decimal(v: u64, out: &mut Vec<char>)
    ensures
        final(out)@ == old(out)@ + decimal(v as nat),
    decreases v,
{
    if v >= 10 {
        push_decimal(v / 10, out);
    }
    let d: u8 = (v % 10) as u8;
    out.push((48 + d) as char);
    assert(final(out)@ =~= old(out)@ + decimal(v as nat));
}

/// Whether every character of `s` is `'0'` or `'1'`.
pub open spec fn is_binary(s: Seq<char>) -> bool {
    forall|i: int| 0 <= i < s.len() ==> s[i] == '0' || s[i] == '1'
}

/// The number that the binary digits `s` write, most significant first.
pub open spec fn binary_value(s: Seq<char>) -> nat
    decreases s.len(),
{
    if s.len() == 0 {
        0
    } else {
        2 * binary_value(s.drop_last()) + (if s.last() == '1' { 1nat } else { 0nat })
    }
}

/// The digits of `s` behind an optional leading `'+'`.
pub open spec fn unsigned_body(s: Seq<char>) -> Seq<char> {
    if s.len() > 0 && s[0] == '+' {
        s.subrange(1, s.len() as int)
    } else {
        s
    }
}

/// What `s` reads as an unsigned 64-bit binary number: an optional `'+'`,
/// then at least one binary digit, the whole below 2^64.
pub open spec fn binary_reading(s: Seq<char>) -> Option<u64> {
    let body = unsigned_body(s);
    if body.len() > 0 && is_binary(body) && binary_value(body) <= u64::MAX {
        Some(binary_value(body) as u64)
    } else {
        None
    }
}

/// A longer digit sequence writes no smaller number than its beginning.
pub proof fn lemma_binary_value_grows(s: Seq<char>, k: int)
    requires
        0 <= k <= s.len(),
    ensures
        binary_value(s.take(k)) <= binary_value(s),
    decreases s.len(),
{
    if k < s.len() {
        lemma_binary_value_grows(s.drop_last(), k);
        assert(s.drop_last().take(k) =~= s.take(k));
    } else {
        assert(s.take(k) =~= s);
    }
}

/// Reads `digits` as an unsigned 64-bit binary number.
pub fn parse_binary(digits: &[char]) -> (r: Option<u64>)
    ensures
        r == binary_reading(digits@),
{
    let n: usize = digits.len();
    let start: usize = if n > 0 && digits[0] == '+' { 1 } else { 0 };
    let ghost body = unsigned_body(digits@);
    assert(body =~= digits@.subrange(start as int, n as int));
    if start == n {
        return None;
    }
    let mut acc: u64 = 0;
    let mut i: usize = start;
    while i < n
        invariant
            start <= i <= n,
            n == digits@.len(),
            body == digits@.subrange(start as int, n as int),
            body == unsigned_body(digits@),
            is_binary(body.take(i - start)),
            acc == binary_value(body.take(i - start)),
        decreases n - i,
    {
        let c = digits[i];
        let ghost next = body.take(i - start + 1);
        assert(next.drop_last() =~= body.take(i - start));
        assert(next.last() == c);
        if c != '0' && c != '1' {
            assert(body[i - start] == c);
            assert(!is_binary(body));
            return None;
        }
        let bit: u64 = if c == '1' { 1 } else { 0 };
        if acc > (u64::MAX - bit) / 2 {
            proof {
                assert(binary_value(next) == 2 * acc + bit);
                lemma_binary_value_grows(body, i - start + 1);
            }
            return None;
        }
        acc = 2 * acc + bit;
        i += 1;
        assert forall|j: int| 0 <= j < next.len() implies next[j] == '0' || next[j] == '1' by {
            if j < next.len() - 1 {
                assert(body.take(i - 1 - start)[j] == next[j]);
            }
        }
    }
    assert(body.take(n - start) =~= body);
    Some(acc)
}

} // verus!
