use vstd::prelude::*;
use vstd::string::*;

verus! {

/// The classes of characters that the cursor primitives scan for.
#[derive(Clone, Copy, Debug, PartialEq, Eq, Structural)]
pub enum CharClass {
    /// Space, tab, carriage return and line feed.
    Whitespace,
    /// The space character alone (separates call arguments on one line).
    Space,
    /// ASCII letters and digits.
    Alphanumeric,
    /// ASCII decimal digits.
    Digit,
}

pub open spec fn is_alpha(c: char) -> bool {
    ('a' <= c && c <= 'z') || ('A' <= c && c <= 'Z')
}

pub open spec fn is_digit(c: char) -> bool {
    '0' <= c && c <= '9'
}

pub open spec fn in_class(c: char, class: CharClass) -> bool {
    match class {
        CharClass::Whitespace => c == ' ' || c == '\t' || c == '\n' || c == '\r',
        CharClass::Space => c == ' ',
        CharClass::Alphanumeric => is_alpha(c) || is_digit(c),
        CharClass::Digit => is_digit(c),
    }
}

/// `n` is the length of the longest prefix of `s` made of characters of `class`.
pub open spec fn is_span(s: Seq<char>, n: int, class: CharClass) -> bool {
    &&& 0 <= n <= s.len()
    &&& forall|i: int| 0 <= i < n ==> in_class(#[trigger] s[i], class)
    &&& (n == s.len() || !in_class(s[n], class))
}

/// The longest prefix of a class is unique.
pub proof fn lemma_span_unique(s: Seq<char>, a: int, b: int, class: CharClass)
    requires
        is_span(s, a, class),
        is_span(s, b, class),
    ensures
        a == b,
{
    if a < b {
        assert(in_class(s[a], class));
    } else if b < a {
        assert(in_class(s[b], class));
    }
}

/// The suffix of `s` that starts at character `n`.
pub open spec fn skip(s: Seq<char>, n: int) -> Seq<char> {
    s.subrange(n, s.len() as int)
}

/// The length of the longest prefix of `s` made of characters of `class`.
pub open spec fn span_len(s: Seq<char>, class: CharClass) -> int {
    span_count(s, class) as int
}

pub open spec fn span_count(s: Seq<char>, class: CharClass) -> nat
    decreases s.len(),
{
    if s.len() > 0 && in_class(s[0], class) {
        1 + span_count(s.drop_first(), class)
    } else {
        0
    }
}

pub proof fn lemma_span_len(s: Seq<char>, class: CharClass)
    ensures
        is_span(s, span_len(s, class), class),
    decreases s.len(),
{
    if s.len() > 0 && in_class(s[0], class) {
        lemma_span_len(s.drop_first(), class);
        assert forall|i: int| 0 <= i < span_len(s, class) implies in_class(#[trigger] s[i], class) by {
            if i > 0 {
                assert(s[i] == s.drop_first()[i - 1]);
            }
        }
        if span_len(s, class) < s.len() {
            assert(s[span_len(s, class)] == s.drop_first()[span_len(s, class) - 1]);
        }
    }
}

pub open spec fn ws_len(s: Seq<char>) -> int {
    span_len(s, CharClass::Whitespace)
}

/// Length of the identifier at the start of `s`, 0 where there is none.
pub open spec fn ident_len(s: Seq<char>) -> int {
    if s.len() > 0 && is_alpha(s[0]) {
        span_len(s, CharClass::Alphanumeric)
    } else {
        0
    }
}

pub open spec fn p_number(s: Seq<char>) -> Option<(int, i32)> {
    let k = sign_len(s);
    let n = span_len(skip(s, k), CharClass::Digit);
    if n > 0 && i32::MIN <= number_value(s, n) <= i32::MAX {
        Some((k + n, number_value(s, n) as i32))
    } else {
        None
    }
}

pub fn char_in_class(c: char, class: CharClass) -> (r: bool)
    ensures
        r == in_class(c, class),
{
    match class {
        CharClass::Whitespace => c == ' ' || c == '\t' || c == '\n' || c == '\r',
        CharClass::Space => c == ' ',
        CharClass::Alphanumeric => ('a' <= c && c <= 'z') || ('A' <= c && c <= 'Z') || ('0' <= c
            && c <= '9'),
        CharClass::Digit => '0' <= c && c <= '9',
    }
}

/// Counts the characters of `class` at the start of `s`.
pub fn span(s: &str, class: CharClass) -> (n: usize)
    ensures
        is_span(s@, n as int, class),
        n == span_len(s@, class),
{
    proof {
        lemma_span_len(s@, class);
    }
    let len = s.unicode_len();
    let mut n: usize = 0;
    while n < len && char_in_class(s.get_char(n), class)
        invariant
            is_span(s@, span_len(s@, class), class),
            len == s@.len(),
            n <= len,
            forall|i: int| 0 <= i < n ==> in_class(#[trigger] s@[i], class),
        decreases len - n,
    {
        n = n + 1;
    }
    proof {
        lemma_span_unique(s@, n as int, span_len(s@, class), class);
    }
    n
}

/// Splits `s` after its first `n` characters.
pub fn split_chars(s: &str, n: usize) -> (r: (&str, &str))
    requires
        n <= s@.len(),
    ensures
        r.0@ == s@.subrange(0, n as int),
        r.1@ == skip(s@, n as int),
{
    let len = s.unicode_len();
    (s.substring_char(0, n), s.substring_char(n, len))
}

/// Skips the whitespace at the start of `s`; never fails.
pub fn extract_whitespace(s: &str) -> (r: (&str, &str))
    ensures
        r.0@ == skip(s@, ws_len(s@)),
        r.1@ == s@.subrange(0, ws_len(s@)),
{
    let n = span(s, CharClass::Whitespace);
    let (ws, rest) = split_chars(s, n);
    (rest, ws)
}


/// Removes `lit` from the start of `s`; fails where `s` does not start with it.
pub fn tag<'a>(lit: &str, s: &'a str) -> (r: Result<&'a str, String>)
    ensures
        r is Ok <==> lit@.is_prefix_of(s@),
        r is Ok ==> r->Ok_0@ == skip(s@, lit@.len() as int),
{
    let n = lit.unicode_len();
    let len = s.unicode_len();
    if n > len {
        return Err(expected(lit));
    }
    let mut i: usize = 0;
    while i < n
        invariant
            n == lit@.len(),
            len == s@.len(),
            n <= len,
            i <= n,
            forall|j: int| 0 <= j < i ==> lit@[j] == s@[j],
        decreases n - i,
    {
        if lit.get_char(i) != s.get_char(i) {
            return Err(expected(lit));
        }
        i = i + 1;
    }
    assert(lit@ =~= s@.subrange(0, n as int));
    Ok(s.substring_char(n, len))
}

/// The message of a failed `tag`.
fn expected(lit: &str) -> (m: String)
    ensures
        m@ == "expected "@ + lit@,
{
    let mut m = String::from_str("expected ");
    m.append(lit);
    m
}

/// Extracts an identifier: a letter followed by letters and digits.
pub fn extract_ident<'a>(s: &'a str) -> (r: Result<(&'a str, &'a str), String>)
    ensures
        r is Ok <==> ident_len(s@) > 0,
        r is Ok ==> r->Ok_0.0@ == skip(s@, ident_len(s@)) && r->Ok_0.1@ == s@.subrange(
            0,
            ident_len(s@),
        ),
{
    let n = span(s, CharClass::Alphanumeric);
    if n == 0 || !(('a' <= s.get_char(0) && s.get_char(0) <= 'z') || ('A' <= s.get_char(0)
        && s.get_char(0) <= 'Z')) {
        return Err(String::from_str("expected identifier"));
    }
    let (ident, rest) = split_chars(s, n);
    Ok((rest, ident))
}

pub open spec fn digits_value(s: Seq<char>) -> int
    decreases s.len(),
{
    if s.len() == 0 {
        0
    } else {
        digits_value(s.drop_last()) * 10 + (s.last() as int - '0' as int)
    }
}

proof fn lemma_digits_value_grows(s: Seq<char>, i: int, j: int)
    requires
        0 <= i <= j <= s.len(),
        forall|k: int| 0 <= k < s.len() ==> is_digit(#[trigger] s[k]),
    ensures
        digits_value(s.subrange(0, i)) <= digits_value(s.subrange(0, j)),
        0 <= digits_value(s.subrange(0, i)),
    decreases j,
{
    if j > 0 {
        assert(s.subrange(0, j).drop_last() =~= s.subrange(0, j - 1));
        if i < j {
            lemma_digits_value_grows(s, i, j - 1);
        } else {
            lemma_digits_value_grows(s, i - 1, j - 1);
            assert(s.subrange(0, i).drop_last() =~= s.subrange(0, i - 1));
        }
    } else {
        assert(s.subrange(0, i) =~= Seq::<char>::empty());
    }
}

/// Length of the optional minus sign that starts a number.
pub open spec fn sign_len(s: Seq<char>) -> int {
    if s.len() > 0 && s[0] == '-' {
        1
    } else {
        0
    }
}

/// The value of a number literal whose sign is `s[0..k]` and digits `s[k..k + n]`.
pub open spec fn number_value(s: Seq<char>, n: int) -> int {
    let k = sign_len(s);
    let v = digits_value(s.subrange(k, k + n));
    if k == 1 {
        -v
    } else {
        v
    }
}

/// Extracts a number literal: an optional `-` and one or more decimal digits,
/// whose value fits in an `i32`.
pub fn extract_number<'a>(s: &'a str) -> (r: Result<(&'a str, i32), String>)
    ensures
        match p_number(s@) {
            Some((n, v)) => r is Ok && r->Ok_0.0@ == skip(s@, n) && r->Ok_0.1 == v,
            None => r is Err,
        },
{
    let len = s.unicode_len();
    let neg = len > 0 && s.get_char(0) == '-';
    let k: usize = if neg { 1 } else { 0 };
    let body = s.substring_char(k, len);
    let n = span(body, CharClass::Digit);
    proof {
        assert(body@ =~= skip(s@, sign_len(s@)));
        assert forall|m: int| is_span(skip(s@, sign_len(s@)), m, CharClass::Digit) implies m
            == n by {
            lemma_span_unique(body@, m, n as int, CharClass::Digit);
        }
        assert(s@.subrange(k as int, k + n) =~= body@.subrange(0, n as int));
    }
    if n == 0 {
        return Err(String::from_str("expected digits"));
    }
    let ghost d = body@.subrange(0, n as int);
    let mut v: i64 = 0;
    let mut i: usize = 0;
    while i < n
        invariant
            i <= n <= body@.len(),
            d == body@.subrange(0, n as int),
            forall|j: int| 0 <= j < n ==> is_digit(#[trigger] body@[j]),
            s@.subrange(k as int, k + n) == d,
            k == sign_len(s@),
            neg == (k == 1),
            forall|m: int| is_span(skip(s@, sign_len(s@)), m, CharClass::Digit) ==> m == n,
            n == span_len(skip(s@, sign_len(s@)), CharClass::Digit),
            v == digits_value(d.subrange(0, i as int)),
            0 <= v <= 2147483648,
        decreases n - i,
    {
        let c = body.get_char(i);
        proof {
            assert(d.subrange(0, i + 1).drop_last() =~= d.subrange(0, i as int));
            assert(d[i as int] == c);
            lemma_digits_value_grows(d, i as int, i + 1);
            lemma_digits_value_grows(d, i + 1, n as int);
        }
        v = v * 10 + (c as u32 - '0' as u32) as i64;
        assert(v == digits_value(d.subrange(0, i + 1)));
        if v > 2147483648 {
            assert(d.subrange(0, n as int) =~= d);
            assert(digits_value(d) >= v);
            return Err(String::from_str("number out of range"));
        }
        i = i + 1;
    }
    assert(d.subrange(0, n as int) =~= d);
    if neg {
        let r: i32 = (-v) as i32;
        assert(skip(body@, n as int) =~= skip(s@, k + n));
        Ok((body.substring_char(n, body.unicode_len()), r))
    } else {
        if v > 2147483647 {
            return Err(String::from_str("number out of range"));
        }
        assert(skip(body@, n as int) =~= skip(s@, k + n));
        Ok((body.substring_char(n, body.unicode_len()), v as i32))
    }
}

} // verus!
