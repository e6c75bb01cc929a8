//! Character-level building blocks shared by the menu formatters and decoders:
//! whitespace and trimming, padding, decimal numbers, and searching.
//!
//! Every text is modelled as its sequence of characters (`Seq<char>`), never as
//! bytes: widths and offsets count characters.

use vstd::prelude::*;
use vstd::string::*;

verus! {

// ---------------------------------------------------------------------------
// Characters
// ---------------------------------------------------------------------------

/// The characters that carry the Unicode `White_Space` property. These are the
/// characters that trimming removes.
pub open spec fn is_whitespace(c: char) -> bool {
    let u = c as u32;
    ||| (0x09 <= u && u <= 0x0D)
    ||| u == 0x20
    ||| u == 0x85
    ||| u == 0xA0
    ||| u == 0x1680
    ||| (0x2000 <= u && u <= 0x200A)
    ||| u == 0x2028
    ||| u == 0x2029
    ||| u == 0x202F
    ||| u == 0x205F
    ||| u == 0x3000
}

/// An ASCII decimal digit.
pub open spec fn is_digit(c: char) -> bool {
    '0' <= c && c <= '9'
}

/// The character that writes the digit `d`, for `d` below ten.
pub open spec fn digit_char(d: nat) -> char {
    (d + 48) as char
}

/// Tells whether `c` is white space.
pub fn char_is_whitespace(c: char) -> (b: bool)
    ensures
        b == is_whitespace(c),
{
    let u: u32 = c as u32;
    (0x09 <= u && u <= 0x0D) || u == 0x20 || u == 0x85 || u == 0xA0 || u == 0x1680 || (0x2000 <= u
        && u <= 0x200A) || u == 0x2028 || u == 0x2029 || u == 0x202F || u == 0x205F || u == 0x3000
}

/// Tells whether `c` is an ASCII decimal digit.
pub fn char_is_digit(c: char) -> (b: bool)
    ensures
        b == is_digit(c),
{
    c >= '0' && c <= '9'
}

/// Tells whether `a` and `b` are the same text.
pub fn same_text(a: &str, b: &str) -> (same: bool)
    ensures
        same == (a@ == b@),
{
    String::from_str(a) == String::from_str(b)
}

/// The characters of `s`, in order, for constant-time indexing.
pub fn chars_of(s: &str) -> (v: Vec<char>)
    ensures
        v@ == s@,
{
    let mut v: Vec<char> = Vec::new();
    for c in it: s.chars()
        invariant
            it.seq() == s@,
            v@ == it.seq().take(it.index() as int),
    {
        v.push(c);
    }
    v
}

// ---------------------------------------------------------------------------
// Trimming
// ---------------------------------------------------------------------------

/// How many white-space characters `s` starts with.
pub open spec fn leading_whitespace(s: Seq<char>) -> nat
    decreases s.len(),
{
    if s.len() > 0 && is_whitespace(s[0]) {
        1 + leading_whitespace(s.skip(1))
    } else {
        0
    }
}

/// How many white-space characters `s` ends with.
pub open spec fn trailing_whitespace(s: Seq<char>) -> nat
    decreases s.len(),
{
    if s.len() > 0 && is_whitespace(s.last()) {
        1 + trailing_whitespace(s.drop_last())
    } else {
        0
    }
}

/// `s` without the white space at its two ends.
pub open spec fn trimmed(s: Seq<char>) -> Seq<char> {
    let rest = s.skip(leading_whitespace(s) as int);
    rest.take(rest.len() - trailing_whitespace(rest))
}

/// The leading white space of `s` is its longest prefix made of white space.
pub proof fn lemma_leading_whitespace(s: Seq<char>, k: int)
    requires
        0 <= k <= s.len(),
        forall|j: int| 0 <= j < k ==> is_whitespace(#[trigger] s[j]),
        k == s.len() || !is_whitespace(s[k]),
    ensures
        leading_whitespace(s) == k,
    decreases k,
{
    if k > 0 {
        let rest = s.skip(1);
        assert forall|j: int| 0 <= j < k - 1 implies is_whitespace(#[trigger] rest[j]) by {}
        lemma_leading_whitespace(rest, k - 1);
    }
}

/// The trailing white space of `s` is its longest suffix made of white space.
pub proof fn lemma_trailing_whitespace(s: Seq<char>, k: int)
    requires
        0 <= k <= s.len(),
        forall|j: int| s.len() - k <= j < s.len() ==> is_whitespace(#[trigger] s[j]),
        k == s.len() || !is_whitespace(s[s.len() - k - 1]),
    ensures
        trailing_whitespace(s) == k,
    decreases k,
{
    if k > 0 {
        let rest = s.drop_last();
        assert forall|j: int| rest.len() - (k - 1) <= j < rest.len() implies is_whitespace(
            #[trigger] rest[j],
        ) by {}
        lemma_trailing_whitespace(rest, k - 1);
    }
}

/// White space at the end of a text does not reach past a character that is
/// none.
pub proof fn lemma_trailing_whitespace_bound(head: Seq<char>, tail: Seq<char>)
    requires
        head.len() > 0,
        !is_whitespace(head.last()),
    ensures
        trailing_whitespace(head + tail) <= tail.len(),
    decreases tail.len(),
{
    let s = head + tail;
    if tail.len() == 0 {
    } else {
        assert(s.drop_last() =~= head + tail.drop_last());
        lemma_trailing_whitespace_bound(head, tail.drop_last());
    }
}

/// White space at the start of a text does not reach past a character that is
/// none.
pub proof fn lemma_leading_whitespace_bound(head: Seq<char>, tail: Seq<char>)
    requires
        tail.len() > 0,
        !is_whitespace(tail[0]),
    ensures
        leading_whitespace(head + tail) <= head.len(),
    decreases head.len(),
{
    let s = head + tail;
    if head.len() == 0 {
    } else {
        assert(s.skip(1) =~= head.skip(1) + tail);
        lemma_leading_whitespace_bound(head.skip(1), tail);
    }
}

/// White space added at the end of a text does not change its trimming.
pub proof fn lemma_trimmed_ignores_trailing(s: Seq<char>, c: char)
    requires
        is_whitespace(c),
    ensures
        trimmed(s.push(c)) == trimmed(s),
{
    let lead = leading_whitespace(s) as int;
    lemma_leading_whitespace_is_prefix(s);
    let longer = s.push(c);
    if lead == s.len() {
        assert forall|j: int| 0 <= j < longer.len() implies is_whitespace(#[trigger] longer[j]) by {}
        lemma_leading_whitespace(longer, longer.len() as int);
    } else {
        assert forall|j: int| 0 <= j < lead implies is_whitespace(#[trigger] longer[j]) by {}
        lemma_leading_whitespace(longer, lead);
        let rest = s.skip(lead);
        let longer_rest = longer.skip(lead);
        assert(longer_rest.drop_last() =~= rest);
        lemma_trailing_whitespace_len(rest);
    }
}

/// A text does not end with more white space than it has characters.
pub proof fn lemma_trailing_whitespace_len(s: Seq<char>)
    ensures
        trailing_whitespace(s) <= s.len(),
    decreases s.len(),
{
    if s.len() > 0 && is_whitespace(s.last()) {
        lemma_trailing_whitespace_len(s.drop_last());
    }
}

/// The leading white space of a text is white space, and what follows it, if
/// anything, is none.
pub proof fn lemma_leading_whitespace_is_prefix(s: Seq<char>)
    ensures
        leading_whitespace(s) <= s.len(),
        forall|j: int| 0 <= j < leading_whitespace(s) ==> is_whitespace(#[trigger] s[j]),
        leading_whitespace(s) < s.len() ==> !is_whitespace(s[leading_whitespace(s) as int]),
    decreases s.len(),
{
    if s.len() > 0 && is_whitespace(s[0]) {
        let rest = s.skip(1);
        lemma_leading_whitespace_is_prefix(rest);
        assert forall|j: int| 0 <= j < leading_whitespace(s) implies is_whitespace(
            #[trigger] s[j],
        ) by {
            if j > 0 {
                assert(s[j] == rest[j - 1]);
            }
        }
    }
}

/// The bounds of the trimmed part of `chars[from..to]`.
pub(crate) fn trim_bounds(chars: &Vec<char>, from: usize, to: usize) -> (r: (usize, usize))
    requires
        from <= to <= chars.len(),
    ensures
        from <= r.0 <= r.1 <= to,
        chars@.subrange(r.0 as int, r.1 as int) == trimmed(chars@.subrange(from as int, to as int)),
{
    let ghost s = chars@.subrange(from as int, to as int);
    let mut a: usize = from;
    while a < to && char_is_whitespace(chars[a])
        invariant
            from <= a <= to <= chars.len(),
            s == chars@.subrange(from as int, to as int),
            forall|j: int| 0 <= j < a - from ==> is_whitespace(#[trigger] s[j]),
        decreases to - a,
    {
        a += 1;
    }
    proof {
        lemma_leading_whitespace(s, a - from);
    }
    let ghost rest = s.skip(a - from);
    let mut b: usize = to;
    while b > a && char_is_whitespace(chars[b - 1])
        invariant
            from <= a <= b <= to <= chars.len(),
            s == chars@.subrange(from as int, to as int),
            rest == s.skip(a - from),
            forall|j: int| b - a <= j < rest.len() ==> is_whitespace(#[trigger] rest[j]),
        decreases b - a,
    {
        b -= 1;
    }
    proof {
        lemma_trailing_whitespace(rest, to - b);
    }
    (a, b)
}

/// `s` without the white space at its two ends.
pub fn trim(s: &str) -> (r: String)
    ensures
        r@ == trimmed(s@),
{
    let chars = chars_of(s);
    let (a, b) = trim_bounds(&chars, 0, chars.len());
    proof {
        assert(chars@.subrange(0, chars.len() as int) =~= chars@);
    }
    String::from_str(s.substring_char(a, b))
}

// ---------------------------------------------------------------------------
// Padding
// ---------------------------------------------------------------------------

/// `n` space characters.
pub open spec fn spaces(n: nat) -> Seq<char> {
    Seq::new(n, |i: int| ' ')
}

/// How many characters are missing from `len` to reach `width`.
pub open spec fn padding(len: nat, width: nat) -> nat {
    if len < width {
        (width - len) as nat
    } else {
        0
    }
}

/// `s` followed by as many spaces as it takes to reach `width` characters;
/// a longer `s` stays as it is.
pub open spec fn padded_right(s: Seq<char>, width: nat) -> Seq<char> {
    s + spaces(padding(s.len(), width))
}

/// `s` preceded by as many spaces as it takes to reach `width` characters;
/// a longer `s` stays as it is.
pub open spec fn padded_left(s: Seq<char>, width: nat) -> Seq<char> {
    spaces(padding(s.len(), width)) + s
}

/// Adds `n` spaces at the end of `out`.
pub fn push_spaces(out: &mut String, n: usize)
    ensures
        final(out)@ == old(out)@ + spaces(n as nat),
{
    let mut k: usize = 0;
    while k < n
        invariant
            k <= n,
            out@ == old(out)@ + spaces(k as nat),
        decreases n - k,
    {
        out.append(" ");
        proof {
            reveal_strlit(" ");
        }
        k += 1;
    }
}

/// Left-aligns `s` in a field of `width` characters.
pub fn pad_right(s: &str, width: usize) -> (r: String)
    ensures
        r@ == padded_right(s@, width as nat),
{
    let len: usize = s.unicode_len();
    let mut out = String::from_str(s);
    if len < width {
        push_spaces(&mut out, width - len);
    }
    out
}

/// Right-aligns `s` in a field of `width` characters.
pub fn pad_left(s: &str, width: usize) -> (r: String)
    ensures
        r@ == padded_left(s@, width as nat),
{
    let len: usize = s.unicode_len();
    let mut out = String::new();
    if len < width {
        push_spaces(&mut out, width - len);
    }
    out.append(s);
    out
}

// ---------------------------------------------------------------------------
// Decimal numbers
// ---------------------------------------------------------------------------

/// The decimal notation of `n`, without sign or leading zeros.
pub open spec fn decimal(n: nat) -> Seq<char>
    decreases n,
{
    if n < 10 {
        seq![digit_char(n)]
    } else {
        decimal(n / 10).push(digit_char(n % 10))
    }
}

/// The number that a text made of digits writes.
pub open spec fn digits_value(s: Seq<char>) -> nat
    decreases s.len(),
{
    if s.len() == 0 {
        0
    } else {
        digits_value(s.drop_last()) * 10 + (s.last() as nat - 48) as nat
    }
}

/// Every character of `s` is a digit.
pub open spec fn all_digits(s: Seq<char>) -> bool {
    forall|i: int| 0 <= i < s.len() ==> is_digit(#[trigger] s[i])
}

/// The number that `s` writes, where it writes one that fits the machine word:
/// an optional `+`, then one digit or more, and nothing else.
pub open spec fn parsed_usize(s: Seq<char>) -> Option<usize> {
    if s.len() > 0 && s[0] == '+' {
        parsed_digits(s.skip(1))
    } else {
        parsed_digits(s)
    }
}

/// The number that `digits` writes, where it is one digit or more, nothing
/// else, and the number fits the machine word.
pub open spec fn parsed_digits(digits: Seq<char>) -> Option<usize> {
    if digits.len() > 0 && all_digits(digits) && digits_value(digits) <= usize::MAX {
        Some(digits_value(digits) as usize)
    } else {
        None
    }
}

/// What the decimal notation looks like: digits only, at least one.
pub proof fn lemma_decimal_digits(n: nat)
    ensures
        decimal(n).len() >= 1,
        all_digits(decimal(n)),
        digits_value(decimal(n)) == n,
    decreases n,
{
    if n < 10 {
        let s = decimal(n);
        assert(digits_value(s.drop_last()) == 0);
    } else {
        lemma_decimal_digits(n / 10);
        let s = decimal(n);
        assert(s.drop_last() =~= decimal(n / 10));
    }
}

/// A larger number is not written with fewer digits.
pub proof fn lemma_decimal_len_monotonic(a: nat, b: nat)
    requires
        a <= b,
    ensures
        decimal(a).len() <= decimal(b).len(),
    decreases b,
{
    if a >= 10 {
        lemma_decimal_len_monotonic(a / 10, b / 10);
    } else if b >= 10 {
        lemma_decimal_digits(b / 10);
    }
}

/// Reading back the decimal notation of a number gives that number.
pub proof fn lemma_parse_decimal(n: nat)
    requires
        n <= usize::MAX,
    ensures
        parsed_usize(decimal(n)) == Some(n as usize),
{
    lemma_decimal_digits(n);
}

/// A prefix of a text of digits writes no larger a number than the whole.
pub proof fn lemma_digits_value_prefix(s: Seq<char>, k: int)
    requires
        0 <= k <= s.len(),
    ensures
        digits_value(s.take(k)) <= digits_value(s),
    decreases s.len() - k,
{
    if k < s.len() {
        lemma_digits_value_prefix(s, k + 1);
        assert(s.take(k + 1).drop_last() =~= s.take(k));
        assert(digits_value(s.take(k)) <= digits_value(s.take(k + 1))) by (nonlinear_arith)
            requires
                digits_value(s.take(k + 1)) == digits_value(s.take(k)) * 10 + (s.take(
                    k + 1,
                ).last() as nat - 48) as nat,
        ;
    } else {
        assert(s.take(k) =~= s);
    }
}

/// The text that writes the digit `d`.
fn digit_str(d: usize) -> (r: &'static str)
    requires
        d < 10,
    ensures
        r@ == seq![digit_char(d as nat)],
{
    proof {
        reveal_strlit("0");
        reveal_strlit("1");
        reveal_strlit("2");
        reveal_strlit("3");
        reveal_strlit("4");
        reveal_strlit("5");
        reveal_strlit("6");
        reveal_strlit("7");
        reveal_strlit("8");
        reveal_strlit("9");
    }
    let r = if d == 0 {
        "0"
    } else if d == 1 {
        "1"
    } else if d == 2 {
        "2"
    } else if d == 3 {
        "3"
    } else if d == 4 {
        "4"
    } else if d == 5 {
        "5"
    } else if d == 6 {
        "6"
    } else if d == 7 {
        "7"
    } else if d == 8 {
        "8"
    } else {
        "9"
    };
    r
}

/// Writes `n` in decimal notation.
pub fn decimal_string(n: usize) -> (r: String)
    ensures
        r@ == decimal(n as nat),
    decreases n,
{
    if n < 10 {
        String::from_str(digit_str(n))
    } else {
        let mut out = decimal_string(n / 10);
        out.append(digit_str(n % 10));
        out
    }
}

/// Reads the number that `chars[from..to]` writes.
pub(crate) fn parse_usize(chars: &Vec<char>, from: usize, to: usize) -> (r: Option<usize>)
    requires
        from <= to <= chars.len(),
    ensures
        r == parsed_usize(chars@.subrange(from as int, to as int)),
{
    let ghost s = chars@.subrange(from as int, to as int);
    let start: usize = if from < to && chars[from] == '+' {
        from + 1
    } else {
        from
    };
    let ghost digits = chars@.subrange(start as int, to as int);
    proof {
        if start > from {
            assert(digits =~= s.skip(1));
        }
    }
    if start == to {
        return None;
    }
    let mut value: usize = 0;
    let mut k: usize = start;
    while k < to
        invariant
            from <= start <= k <= to <= chars.len(),
            start < to,
            digits == chars@.subrange(start as int, to as int),
            parsed_usize(chars@.subrange(from as int, to as int)) == parsed_digits(digits),
            all_digits(digits.take(k - start)),
            value == digits_value(digits.take(k - start)),
        decreases to - k,
    {
        let c: char = chars[k];
        let ghost next = digits.take(k + 1 - start);
        proof {
            assert(next.drop_last() =~= digits.take(k - start));
        }
        if !char_is_digit(c) {
            proof {
                assert(!is_digit(digits[k - start]));
            }
            return None;
        }
        let d: usize = (c as u32 - 48) as usize;
        proof {
            assert forall|i: int| 0 <= i < next.len() implies is_digit(#[trigger] next[i]) by {}
            lemma_digits_value_prefix(digits, k + 1 - start);
        }
        if value > (usize::MAX - d) / 10 {
            return None;
        }
        value = value * 10 + d;
        k += 1;
    }
    proof {
        assert(digits.take(to - start) =~= digits);
    }
    Some(value)
}

/// Reads the number that `s` writes.
pub fn parse_number(s: &str) -> (r: Option<usize>)
    ensures
        r == parsed_usize(s@),
{
    let chars = chars_of(s);
    proof {
        assert(chars@.subrange(0, chars.len() as int) =~= s@);
    }
    parse_usize(&chars, 0, chars.len())
}

// ---------------------------------------------------------------------------
// Searching
// ---------------------------------------------------------------------------

/// Where `c` first occurs in `s`; the length of `s` where it does not occur.
pub open spec fn first_index(s: Seq<char>, c: char) -> nat
    decreases s.len(),
{
    if s.len() == 0 || s[0] == c {
        0
    } else {
        1 + first_index(s.skip(1), c)
    }
}

/// `first_index` is the position before which `c` does not occur and at which
/// it does, if anywhere.
pub proof fn lemma_first_index(s: Seq<char>, c: char, k: int)
    requires
        0 <= k <= s.len(),
        forall|j: int| 0 <= j < k ==> #[trigger] s[j] != c,
        k == s.len() || s[k] == c,
    ensures
        first_index(s, c) == k,
    decreases k,
{
    if k > 0 {
        let rest = s.skip(1);
        assert forall|j: int| 0 <= j < k - 1 implies #[trigger] rest[j] != c by {}
        lemma_first_index(rest, c, k - 1);
    }
}

/// Finds the first `c` in `chars[from..to]`, or `to`.
pub(crate) fn find_char(chars: &Vec<char>, from: usize, to: usize, c: char) -> (k: usize)
    requires
        from <= to <= chars.len(),
    ensures
        from <= k <= to,
        k - from == first_index(chars@.subrange(from as int, to as int), c),
{
    let ghost s = chars@.subrange(from as int, to as int);
    let mut k: usize = from;
    while k < to && chars[k] != c
        invariant
            from <= k <= to <= chars.len(),
            s == chars@.subrange(from as int, to as int),
            forall|j: int| 0 <= j < k - from ==> #[trigger] s[j] != c,
        decreases to - k,
    {
        k += 1;
    }
    proof {
        lemma_first_index(s, c, k - from);
    }
    k
}

/// `pattern` stands in `s` at position `k`.
pub open spec fn occurs_at(s: Seq<char>, pattern: Seq<char>, k: int) -> bool {
    0 <= k && k + pattern.len() <= s.len() && s.subrange(k, k + pattern.len()) == pattern
}

/// The last position at or before `k` where `pattern` stands in `s`; `-1`
/// where there is none.
pub open spec fn last_occurrence_upto(s: Seq<char>, pattern: Seq<char>, k: int) -> int
    decreases k + 1,
{
    if k < 0 {
        -1
    } else if occurs_at(s, pattern, k) {
        k
    } else {
        last_occurrence_upto(s, pattern, k - 1)
    }
}

/// The last position where `pattern` stands in `s`; `-1` where there is none.
pub open spec fn last_occurrence(s: Seq<char>, pattern: Seq<char>) -> int {
    last_occurrence_upto(s, pattern, s.len() - pattern.len())
}

/// `last_occurrence_upto` is the position after which, up to `k`, the pattern
/// does not stand, and at which it does, if anywhere.
pub proof fn lemma_last_occurrence_upto(s: Seq<char>, pattern: Seq<char>, k: int, m: int)
    requires
        -1 <= m <= k,
        forall|j: int| m < j <= k ==> !occurs_at(s, pattern, j),
        m == -1 || occurs_at(s, pattern, m),
    ensures
        last_occurrence_upto(s, pattern, k) == m,
    decreases k - m,
{
    if k > m {
        lemma_last_occurrence_upto(s, pattern, k - 1, m);
    }
}

/// Tells whether `pattern` stands in `chars` at position `k`.
fn matches_at(chars: &Vec<char>, pattern: &Vec<char>, k: usize) -> (b: bool)
    requires
        k + pattern.len() <= chars.len(),
    ensures
        b == occurs_at(chars@, pattern@, k as int),
{
    let ghost window = chars@.subrange(k as int, k + pattern.len());
    let mut i: usize = 0;
    while i < pattern.len()
        invariant
            i <= pattern.len(),
            k + pattern.len() <= chars.len(),
            window == chars@.subrange(k as int, k + pattern.len()),
            forall|j: int| 0 <= j < i ==> #[trigger] window[j] == pattern@[j],
        decreases pattern.len() - i,
    {
        if chars[k + i] != pattern[i] {
            return false;
        }
        i += 1;
    }
    proof {
        assert(window =~= pattern@);
    }
    true
}

/// Finds the last place where `pattern` stands in `chars`.
pub fn find_last(chars: &Vec<char>, pattern: &Vec<char>) -> (r: Option<usize>)
    ensures
        match r {
            Some(k) => k + pattern.len() <= chars.len() && last_occurrence(chars@, pattern@) == k,
            None => last_occurrence(chars@, pattern@) == -1,
        },
{
    if pattern.len() > chars.len() {
        return None;
    }
    let top: usize = chars.len() - pattern.len();
    let mut k: usize = top;
    loop
        invariant
            k <= top,
            top == chars.len() - pattern.len(),
            forall|j: int| k < j <= top ==> !occurs_at(chars@, pattern@, j),
        decreases k,
    {
        if matches_at(chars, pattern, k) {
            proof {
                lemma_last_occurrence_upto(chars@, pattern@, top as int, k as int);
            }
            return Some(k);
        }
        if k == 0 {
            proof {
                lemma_last_occurrence_upto(chars@, pattern@, top as int, -1);
            }
            return None;
        }
        k -= 1;
    }
}

} // verus!
