//! Plain text: digits, padding, trimming, searching and joining.
//!
//! Every function here works on the characters of a string; the spec functions
//! say what the resulting sequence of characters is.

use vstd::prelude::*;

verus! {

/// `String::push` appends one character.
pub assume_specification[ String::push ](s: &mut String, c: char)
    ensures
        final(s)@ == old(s)@.push(c),
;

// --- Characters and strings ---------------------------------------------------

/// The characters of a string, in order.
pub fn chars_of(s: &str) -> (r: Vec<char>)
    ensures
        r@ == s@,
{
    let mut out: Vec<char> = Vec::new();
    for c in it: s.chars()
        invariant
            it.seq() == s@,
            out@ == s@.take(it.index() as int),
    {
        out.push(c);
        assert(out@ == s@.take(it.index() + 1));
    }
    assert(s@.take(s@.len() as int) == s@);
    out
}

/// The string made of the characters from `from` up to, not including, `to`.
pub fn string_between(chars: &[char], from: usize, to: usize) -> (r: String)
    requires
        from <= to <= chars.len(),
    ensures
        r@ == chars@.subrange(from as int, to as int),
{
    let mut out: String = String::new();
    let mut i: usize = from;
    while i < to
        invariant
            from <= i <= to <= chars.len(),
            out@ == chars@.subrange(from as int, i as int),
        decreases to - i,
    {
        out.push(chars[i]);
        i += 1;
        assert(out@ == chars@.subrange(from as int, i as int));
    }
    out
}

/// Whether two strings hold the same characters.
pub fn str_eq(a: &str, b: &str) -> (r: bool)
    ensures
        r == (a@ == b@),
{
    let x: Vec<char> = chars_of(a);
    let y: Vec<char> = chars_of(b);
    if x.len() != y.len() {
        return false;
    }
    let mut i: usize = 0;
    while i < x.len()
        invariant
            i <= x.len(),
            x@ == a@,
            y@ == b@,
            x.len() == y.len(),
            a@.take(i as int) == b@.take(i as int),
        decreases x.len() - i,
    {
        if x[i] != y[i] {
            assert(a@[i as int] != b@[i as int]);
            return false;
        }
        i += 1;
        assert(a@.take(i as int) == a@.take(i - 1).push(a@[i - 1]));
        assert(b@.take(i as int) == b@.take(i - 1).push(b@[i - 1]));
    }
    assert(a@.take(i as int) == a@);
    assert(b@.take(i as int) == b@);
    true
}

/// `pat` stands in `s` at position `i`.
pub open spec fn occurs_at(s: Seq<char>, pat: Seq<char>, i: int) -> bool {
    0 <= i && i + pat.len() <= s.len() && s.subrange(i, i + pat.len()) == pat
}

/// `s` begins with `pat`.
pub open spec fn begins_with(s: Seq<char>, pat: Seq<char>) -> bool {
    occurs_at(s, pat, 0)
}

/// `s` ends with `pat`.
pub open spec fn finishes_with(s: Seq<char>, pat: Seq<char>) -> bool {
    occurs_at(s, pat, s.len() - pat.len())
}

/// `pat` stands somewhere in `s`.
pub open spec fn holds_text(s: Seq<char>, pat: Seq<char>) -> bool {
    exists|i: int| occurs_at(s, pat, i)
}

/// The first position at which `pat` stands in `s`.
pub open spec fn is_first_occurrence(s: Seq<char>, pat: Seq<char>, i: int) -> bool {
    occurs_at(s, pat, i) && forall|j: int| 0 <= j < i ==> !occurs_at(s, pat, j)
}

/// Whether `pat` stands in `s` at position `i`.
pub fn matches_at(s: &[char], pat: &[char], i: usize) -> (r: bool)
    ensures
        r == occurs_at(s@, pat@, i as int),
{
    if i > s.len() || pat.len() > s.len() - i {
        return false;
    }
    let mut k: usize = 0;
    while k < pat.len()
        invariant
            i <= s.len(),
            pat.len() <= s.len() - i,
            k <= pat.len(),
            s@.subrange(i as int, i + k) == pat@.take(k as int),
        decreases pat.len() - k,
    {
        if s[i + k] != pat[k] {
            assert(s@.subrange(i as int, i + pat.len())[k as int] != pat@[k as int]);
            return false;
        }
        k += 1;
        assert(s@.subrange(i as int, i + k) == pat@.take(k as int));
    }
    assert(pat@.take(k as int) == pat@);
    true
}

/// Position of the first `pat` in `s`.
pub fn find(s: &[char], pat: &[char]) -> (r: Option<usize>)
    ensures
        match r {
            Some(i) => is_first_occurrence(s@, pat@, i as int),
            None => !holds_text(s@, pat@),
        },
{
    let mut i: usize = 0;
    while i <= s.len()
        invariant
            i <= s.len() + 1,
            forall|j: int| 0 <= j < i ==> !occurs_at(s@, pat@, j),
        decreases s.len() + 1 - i,
    {
        if matches_at(s, pat, i) {
            return Some(i);
        }
        if i == s.len() {
            return None;
        }
        i += 1;
    }
    None
}

/// Whether `s` begins with `pat`.
pub fn str_starts_with(s: &str, pat: &str) -> (r: bool)
    ensures
        r == begins_with(s@, pat@),
{
    matches_at(&chars_of(s), &chars_of(pat), 0)
}

/// Whether `s` ends with `pat`.
pub fn str_ends_with(s: &str, pat: &str) -> (r: bool)
    ensures
        r == finishes_with(s@, pat@),
{
    let x: Vec<char> = chars_of(s);
    let y: Vec<char> = chars_of(pat);
    if y.len() > x.len() {
        return false;
    }
    matches_at(&x, &y, x.len() - y.len())
}

/// Whether `pat` stands somewhere in `s`.
pub fn str_contains(s: &str, pat: &str) -> (r: bool)
    ensures
        r == holds_text(s@, pat@),
{
    match find(&chars_of(s), &chars_of(pat)) {
        Some(_) => true,
        None => false,
    }
}

// --- Numbers --------------------------------------------------------------------

/// The character of a digit below sixteen: `0`..`9`, then `a`..`f`.
pub open spec fn digit_char(d: nat) -> char {
    if d < 10 {
        (48 + d) as char
    } else {
        (87 + d) as char
    }
}

/// `n` written in `base`, most significant digit first, without leading zeros.
pub open spec fn digits(n: nat, base: nat) -> Seq<char>
    decreases n,
{
    if base < 2 || n < base {
        seq![digit_char(n)]
    } else {
        proof {
            assert(n / base < n) by (nonlinear_arith)
                requires
                    base >= 2,
                    n >= base,
            ;
        }
        digits(n / base, base).push(digit_char(n % base))
    }
}

/// `n` in decimal.
pub open spec fn dec(n: nat) -> Seq<char> {
    digits(n, 10)
}

/// `n` in lower-case hexadecimal.
pub open spec fn hex(n: nat) -> Seq<char> {
    digits(n, 16)
}

/// An integer in decimal, with a minus sign when it is negative.
pub open spec fn signed(i: int) -> Seq<char> {
    if i < 0 {
        seq!['-'] + dec((-i) as nat)
    } else {
        dec(i as nat)
    }
}

/// An integer in decimal that always carries its sign.
pub open spec fn with_sign(i: int) -> Seq<char> {
    if i < 0 {
        signed(i)
    } else {
        seq!['+'] + signed(i)
    }
}

/// `s` filled up with zeros on the left to `width` characters.
pub open spec fn zero_fill(s: Seq<char>, width: nat) -> Seq<char> {
    if s.len() >= width {
        s
    } else {
        Seq::new((width - s.len()) as nat, |i: int| '0') + s
    }
}

/// `n` in hexadecimal on at least `width` digits.
pub open spec fn hex_fill(n: nat, width: nat) -> Seq<char> {
    zero_fill(hex(n), width)
}

/// `0x` and then `n` in hexadecimal on at least `width` digits.
pub open spec fn hex_prefixed(n: nat, width: nat) -> Seq<char> {
    seq!['0', 'x'] + hex_fill(n, width)
}

fn digit(d: u64) -> (r: char)
    requires
        d < 16,
    ensures
        r == digit_char(d as nat),
{
    if d < 10 {
        (48u8 + d as u8) as char
    } else {
        (87u8 + d as u8) as char
    }
}

fn append_digits(out: &mut String, n: u64, base: u64)
    requires
        2 <= base <= 16,
    ensures
        final(out)@ == old(out)@ + digits(n as nat, base as nat),
    decreases n,
{
    if n >= base {
        assert(n / base < n) by (nonlinear_arith)
            requires
                base >= 2,
                n >= base,
        ;
        append_digits(out, n / base, base);
        out.push(digit(n % base));
        assert(out@ == old(out)@ + digits((n / base) as nat, base as nat).push(
            digit_char((n % base) as nat),
        ));
    } else {
        out.push(digit(n));
        assert(out@ == old(out)@ + seq![digit_char(n as nat)]);
    }
}

/// Decimal text of an unsigned number.
pub fn dec_text(n: u64) -> (r: String)
    ensures
        r@ == dec(n as nat),
{
    let mut out: String = String::new();
    append_digits(&mut out, n, 10);
    assert(out@ == Seq::<char>::empty() + dec(n as nat));
    out
}

/// Decimal text of a signed number.
pub fn signed_text(i: i64) -> (r: String)
    ensures
        r@ == signed(i as int),
{
    if i < 0 {
        let mut out: String = String::new();
        out.push('-');
        let m: i64 = -(i + 1);
        append_digits(&mut out, m as u64 + 1, 10);
        assert(out@ == seq!['-'] + dec((-i) as nat));
        out
    } else {
        dec_text(i as u64)
    }
}

/// Decimal text of a signed number, with its sign in any case.
pub fn with_sign_text(i: i64) -> (r: String)
    ensures
        r@ == with_sign(i as int),
{
    if i < 0 {
        signed_text(i)
    } else {
        let mut out: String = String::new();
        out.push('+');
        append_digits(&mut out, i as u64, 10);
        assert(out@ == seq!['+'] + dec(i as nat));
        out
    }
}

/// Hexadecimal text of `n` on at least `width` digits.
pub fn hex_text(n: u64, width: usize) -> (r: String)
    ensures
        r@ == hex_fill(n as nat, width as nat),
{
    let mut raw: String = String::new();
    append_digits(&mut raw, n, 16);
    assert(raw@ == Seq::<char>::empty() + hex(n as nat));
    let chars: Vec<char> = chars_of(raw.as_str());
    if chars.len() >= width {
        return raw;
    }
    let mut out: String = String::new();
    let missing: usize = width - chars.len();
    let mut i: usize = 0;
    while i < missing
        invariant
            i <= missing,
            out@ == Seq::new(i as nat, |j: int| '0'),
        decreases missing - i,
    {
        out.push('0');
        i += 1;
        assert(out@ == Seq::new(i as nat, |j: int| '0'));
    }
    out.append(raw.as_str());
    out
}

/// `0x` and the hexadecimal text of `n` on at least `width` digits.
pub fn hex_prefixed_text(n: u64, width: usize) -> (r: String)
    ensures
        r@ == hex_prefixed(n as nat, width as nat),
{
    let mut out: String = String::new();
    out.push('0');
    out.push('x');
    out.append(hex_text(n, width).as_str());
    assert(out@ == seq!['0', 'x'] + hex_fill(n as nat, width as nat));
    out
}

/// The value of a digit character in bases up to sixteen, either case.
pub open spec fn digit_value(c: char) -> Option<nat> {
    if '0' <= c <= '9' {
        Some((c as nat - 48) as nat)
    } else if 'a' <= c <= 'f' {
        Some((c as nat - 87) as nat)
    } else if 'A' <= c <= 'F' {
        Some((c as nat - 55) as nat)
    } else {
        None
    }
}

/// `c` is a digit of `base`.
pub open spec fn is_digit(c: char, base: nat) -> bool {
    match digit_value(c) {
        Some(d) => d < base,
        None => false,
    }
}

/// The number that a sequence of digits of `base` stands for.
pub open spec fn value_of(s: Seq<char>, base: nat) -> nat
    decreases s.len(),
{
    if s.len() == 0 {
        0
    } else {
        value_of(s.drop_last(), base) * base + digit_value(s.last())->0
    }
}

/// What follows a leading plus sign, or the text itself.
pub open spec fn without_plus(s: Seq<char>) -> Seq<char> {
    if s.len() > 0 && s[0] == '+' {
        s.skip(1)
    } else {
        s
    }
}

/// The number that a text stands for: an optional plus sign and at least one
/// digit, no larger than `max`; `None` for any other text.
pub open spec fn parsed(s: Seq<char>, base: nat, max: nat) -> Option<nat> {
    let t = without_plus(s);
    if t.len() > 0 && (forall|i: int| 0 <= i < t.len() ==> is_digit(#[trigger] t[i], base))
        && value_of(t, base) <= max {
        Some(value_of(t, base))
    } else {
        None
    }
}

fn digit_of(c: char) -> (r: Option<u128>)
    ensures
        match r {
            Some(d) => digit_value(c) == Some(d as nat) && d < 16,
            None => digit_value(c) is None,
        },
{
    let u: u32 = c as u32;
    if '0' <= c && c <= '9' {
        Some((u - 48) as u128)
    } else if 'a' <= c && c <= 'f' {
        Some((u - 87) as u128)
    } else if 'A' <= c && c <= 'F' {
        Some((u - 55) as u128)
    } else {
        None
    }
}

proof fn lemma_value_grows(s: Seq<char>, k: int, base: nat)
    requires
        0 <= k <= s.len(),
        base >= 1,
    ensures
        value_of(s.take(k), base) <= value_of(s, base),
    decreases s.len(),
{
    if k == s.len() {
        assert(s.take(k) == s);
    } else {
        lemma_value_grows(s.drop_last(), k, base);
        assert(s.drop_last().take(k) == s.take(k));
        let v = value_of(s.drop_last(), base);
        assert(v * base >= v) by (nonlinear_arith)
            requires
                base >= 1,
                v >= 0,
        ;
    }
}

/// Reads an unsigned number in `base`, no larger than `max`.
pub fn parse_number(s: &str, base: u128, max: u128) -> (r: Option<u128>)
    requires
        2 <= base <= 16,
    ensures
        match r {
            Some(n) => parsed(s@, base as nat, max as nat) == Some(n as nat),
            None => parsed(s@, base as nat, max as nat) is None,
        },
{
    let chars: Vec<char> = chars_of(s);
    let start: usize = if chars.len() > 0 && chars[0] == '+' {
        1
    } else {
        0
    };
    let ghost t = without_plus(s@);
    assert(t == chars@.skip(start as int));
    if chars.len() == start {
        return None;
    }
    let mut n: u128 = 0;
    let mut i: usize = start;
    while i < chars.len()
        invariant
            start <= i <= chars.len(),
            start <= 1,
            2 <= base <= 16,
            t == chars@.skip(start as int),
            t == without_plus(s@),
            t.len() > 0,
            n <= max,
            n == value_of(t.take(i - start), base as nat),
            forall|j: int| 0 <= j < i - start ==> is_digit(#[trigger] t[j], base as nat),
        decreases chars.len() - i,
    {
        let ghost k = i - start;
        let d: u128 = match digit_of(chars[i]) {
            Some(d) => d,
            None => {
                assert(!is_digit(t[k], base as nat));
                return None;
            },
        };
        if d >= base {
            assert(!is_digit(t[k], base as nat));
            return None;
        }
        proof {
            assert(t.take(k + 1).drop_last() == t.take(k));
            assert(t.take(k + 1).last() == t[k]);
            assert(value_of(t.take(k + 1), base as nat) == n * base + d);
            lemma_value_grows(t, k + 1, base as nat);
        }
        match n.checked_mul(base) {
            None => {
                return None;
            },
            Some(m) => {
                match m.checked_add(d) {
                    None => {
                        return None;
                    },
                    Some(v) => {
                        if v > max {
                            return None;
                        }
                        n = v;
                    },
                }
            },
        }
        i += 1;
    }
    assert(t.take(i - start) == t);
    Some(n)
}

/// The digits of a number read back as that number.
pub proof fn lemma_digits_value(n: nat, base: nat)
    requires
        2 <= base <= 16,
    ensures
        digits(n, base).len() > 0,
        forall|i: int| 0 <= i < digits(n, base).len() ==> is_digit(#[trigger] digits(n, base)[i], base),
        value_of(digits(n, base), base) == n,
    decreases n,
{
    let s = digits(n, base);
    if n < base {
        assert(s.drop_last() == Seq::<char>::empty());
        assert(value_of(s.drop_last(), base) * base == 0) by (nonlinear_arith)
            requires
                value_of(s.drop_last(), base) == 0,
        ;
        assert(digit_value(digit_char(n)) == Some(n));
    } else {
        let q = n / base;
        let d = n % base;
        assert(q < n && d < base && q * base + d == n) by (nonlinear_arith)
            requires
                base >= 2,
                n >= base,
                q == n / base,
                d == n % base,
        ;
        lemma_digits_value(q, base);
        assert(s.drop_last() == digits(q, base));
        assert(digit_value(digit_char(d)) == Some(d));
        assert forall|i: int| 0 <= i < s.len() implies is_digit(#[trigger] s[i], base) by {
            if i < s.len() - 1 {
                assert(s[i] == digits(q, base)[i]);
            }
        }
    }
}

/// Reading the decimal text of a number gives the number back, when it is
/// within the bound.
pub proof fn lemma_parsed_dec(n: nat, max: nat)
    requires
        n <= max,
    ensures
        parsed(dec(n), 10, max) == Some(n),
{
    lemma_digits_value(n, 10);
    let s = dec(n);
    assert(is_digit(s[0], 10));
    assert(without_plus(s) == s);
}

/// Different numbers have different decimal texts.
pub proof fn lemma_dec_injective(a: nat, b: nat)
    requires
        dec(a) == dec(b),
    ensures
        a == b,
{
    lemma_digits_value(a, 10);
    lemma_digits_value(b, 10);
}

// --- Whitespace -----------------------------------------------------------------

/// The characters with the Unicode property `White_Space`.
pub open spec fn is_white(c: char) -> bool {
    let u = c as u32;
    ||| 9 <= u <= 13
    ||| u == 0x20
    ||| u == 0x85
    ||| u == 0xA0
    ||| u == 0x1680
    ||| 0x2000 <= u <= 0x200A
    ||| u == 0x2028
    ||| u == 0x2029
    ||| u == 0x202F
    ||| u == 0x205F
    ||| u == 0x3000
}

/// `s` without the whitespace at its end.
pub open spec fn trim_end(s: Seq<char>) -> Seq<char>
    decreases s.len(),
{
    if s.len() > 0 && is_white(s.last()) {
        trim_end(s.drop_last())
    } else {
        s
    }
}

/// `s` without the whitespace at its beginning.
pub open spec fn trim_start(s: Seq<char>) -> Seq<char>
    decreases s.len(),
{
    if s.len() > 0 && is_white(s[0]) {
        trim_start(s.skip(1))
    } else {
        s
    }
}

/// `s` without the whitespace at either end.
pub open spec fn trim(s: Seq<char>) -> Seq<char> {
    trim_start(trim_end(s))
}

fn white(c: char) -> (r: bool)
    ensures
        r == is_white(c),
{
    let u: u32 = c as u32;
    (9 <= u && u <= 13) || u == 0x20 || u == 0x85 || u == 0xA0 || u == 0x1680 || (0x2000 <= u && u
        <= 0x200A) || u == 0x2028 || u == 0x2029 || u == 0x202F || u == 0x205F || u == 0x3000
}

fn end_of_text(chars: &[char]) -> (r: usize)
    ensures
        r <= chars.len(),
        trim_end(chars@) == chars@.take(r as int),
{
    let mut end: usize = chars.len();
    assert(chars@.take(end as int) == chars@);
    while end > 0 && white(chars[end - 1])
        invariant
            end <= chars.len(),
            trim_end(chars@) == trim_end(chars@.take(end as int)),
        decreases end,
    {
        assert(chars@.take(end as int).drop_last() == chars@.take(end - 1));
        end -= 1;
    }
    assert(trim_end(chars@.take(end as int)) == chars@.take(end as int));
    end
}

/// `s` without the whitespace at its end.
pub fn trim_end_text(s: &str) -> (r: String)
    ensures
        r@ == trim_end(s@),
{
    let chars: Vec<char> = chars_of(s);
    let end: usize = end_of_text(&chars);
    assert(chars@.subrange(0, end as int) == chars@.take(end as int));
    string_between(&chars, 0, end)
}

/// `s` without the whitespace at either end.
pub fn trim_text(s: &str) -> (r: String)
    ensures
        r@ == trim(s@),
{
    let chars: Vec<char> = chars_of(s);
    let end: usize = end_of_text(&chars);
    let ghost body = chars@.take(end as int);
    let mut start: usize = 0;
    assert(body.skip(0) == body);
    while start < end && white(chars[start])
        invariant
            start <= end <= chars.len(),
            body == chars@.take(end as int),
            trim_start(body) == trim_start(body.skip(start as int)),
        decreases end - start,
    {
        assert(body.skip(start as int).skip(1) == body.skip(start + 1));
        start += 1;
    }
    assert(trim_start(body.skip(start as int)) == body.skip(start as int));
    assert(chars@.subrange(start as int, end as int) == body.skip(start as int));
    string_between(&chars, start, end)
}

// --- Splitting and joining --------------------------------------------------------

/// The position of the first `c` in `s`, or the length of `s`.
pub open spec fn first_of(s: Seq<char>, c: char) -> int
    decreases s.len(),
{
    if s.len() == 0 || s[0] == c {
        0
    } else {
        1 + first_of(s.skip(1), c)
    }
}

/// [`first_of`] is within the text, at the first `c`.
pub proof fn lemma_first_of(s: Seq<char>, c: char)
    ensures
        0 <= first_of(s, c) <= s.len(),
        forall|i: int| 0 <= i < first_of(s, c) ==> s[i] != c,
        first_of(s, c) < s.len() ==> s[first_of(s, c)] == c,
    decreases s.len(),
{
    if s.len() > 0 && s[0] != c {
        lemma_first_of(s.skip(1), c);
        let k = first_of(s.skip(1), c);
        assert forall|i: int| 0 <= i < k + 1 implies s[i] != c by {
            if i > 0 {
                assert(s[i] == s.skip(1)[i - 1]);
            }
        }
        if k + 1 < s.len() {
            assert(s[k + 1] == s.skip(1)[k]);
        }
    }
}

/// The pieces of `s` between the occurrences of `c`.
pub open spec fn split_on(s: Seq<char>, c: char) -> Seq<Seq<char>>
    decreases s.len(),
    via split_on_decreases
{
    let i = first_of(s, c);
    if i >= s.len() {
        seq![s]
    } else {
        seq![s.take(i)] + split_on(s.skip(i + 1), c)
    }
}

#[via_fn]
proof fn split_on_decreases(s: Seq<char>, c: char) {
    lemma_first_of(s, c);
}

/// The views of a sequence of strings.
pub open spec fn views(v: Seq<String>) -> Seq<Seq<char>> {
    Seq::new(v.len(), |i: int| v[i]@)
}

fn index_of(chars: &[char], from: usize, c: char) -> (r: usize)
    requires
        from <= chars.len(),
    ensures
        from <= r <= chars.len(),
        r - from == first_of(chars@.skip(from as int), c),
{
    let mut i: usize = from;
    let ghost s = chars@.skip(from as int);
    assert(s.skip(0) == s);
    while i < chars.len() && chars[i] != c
        invariant
            from <= i <= chars.len(),
            s == chars@.skip(from as int),
            first_of(s, c) == (i - from) + first_of(s.skip(i - from), c),
        decreases chars.len() - i,
    {
        assert(s.skip(i - from)[0] == chars@[i as int]);
        assert(s.skip(i - from).skip(1) == s.skip(i + 1 - from));
        i += 1;
    }
    if i < chars.len() {
        assert(s.skip(i - from)[0] == chars@[i as int]);
    }
    i
}

/// The pieces of `s` between the occurrences of `c`.
pub fn split_text(s: &str, c: char) -> (r: Vec<String>)
    ensures
        views(r@) == split_on(s@, c),
{
    let chars: Vec<char> = chars_of(s);
    let mut out: Vec<String> = Vec::new();
    let mut from: usize = 0;
    assert(chars@.skip(0) == s@);
    assert(views(out@) + split_on(s@, c) == split_on(s@, c));
    loop
        invariant
            from <= chars.len(),
            chars@ == s@,
            views(out@) + split_on(chars@.skip(from as int), c) == split_on(s@, c),
        decreases chars.len() - from,
    {
        let i: usize = index_of(&chars, from, c);
        let ghost rest = chars@.skip(from as int);
        let piece: String = string_between(&chars, from, i);
        proof {
            lemma_first_of(rest, c);
            assert(rest.take(i - from) == piece@);
        }
        let ghost before = views(out@);
        out.push(piece);
        assert(views(out@) == before.push(piece@));
        if i == chars.len() {
            assert(rest == rest.take(i - from));
            assert(before.push(piece@) == before + split_on(rest, c));
            return out;
        }
        assert(rest.skip(i - from + 1) == chars@.skip(i + 1));
        assert(before.push(piece@) + split_on(chars@.skip(i + 1), c) == before + split_on(rest, c));
        from = i + 1;
    }
}

/// What stands before and after the first `c`, when there is one.
pub open spec fn split_at_first(s: Seq<char>, c: char) -> Option<(Seq<char>, Seq<char>)> {
    let i = first_of(s, c);
    if i >= s.len() {
        None
    } else {
        Some((s.take(i), s.skip(i + 1)))
    }
}

/// What stands before and after the first `c`, when there is one.
pub fn split_once_text(s: &str, c: char) -> (r: Option<(String, String)>)
    ensures
        match r {
            Some(p) => split_at_first(s@, c) == Some((p.0@, p.1@)),
            None => split_at_first(s@, c) is None,
        },
{
    let chars: Vec<char> = chars_of(s);
    assert(chars@.skip(0) == s@);
    let i: usize = index_of(&chars, 0, c);
    if i == chars.len() {
        return None;
    }
    let a: String = string_between(&chars, 0, i);
    let b: String = string_between(&chars, i + 1, chars.len());
    assert(a@ == s@.take(i as int));
    assert(b@ == s@.skip(i + 1));
    Some((a, b))
}

/// A line without the carriage return that may end it.
pub open spec fn without_return(s: Seq<char>) -> Seq<char> {
    if s.len() > 0 && s.last() == '\r' {
        s.drop_last()
    } else {
        s
    }
}

/// The lines of a text. A line ends with a line feed, which a carriage return
/// may precede; what follows the last line feed is a line when it is not empty.
pub open spec fn lines(s: Seq<char>) -> Seq<Seq<char>> {
    let p = split_on(s, '\n');
    let whole = Seq::new((p.len() - 1) as nat, |i: int| without_return(p[i]));
    if p.last().len() == 0 {
        whole
    } else {
        whole.push(p.last())
    }
}

proof fn lemma_split_on_len(s: Seq<char>, c: char)
    ensures
        split_on(s, c).len() >= 1,
    decreases s.len(),
{
    lemma_first_of(s, c);
    let i = first_of(s, c);
    if i < s.len() {
        lemma_split_on_len(s.skip(i + 1), c);
    }
}

/// The lines of a text.
pub fn lines_of(s: &str) -> (r: Vec<String>)
    ensures
        views(r@) == lines(s@),
{
    let parts: Vec<String> = split_text(s, '\n');
    let ghost p = split_on(s@, '\n');
    proof {
        lemma_split_on_len(s@, '\n');
        assert(views(parts@).len() == parts@.len());
    }
    let mut out: Vec<String> = Vec::new();
    let last: usize = parts.len() - 1;
    let mut i: usize = 0;
    while i < last
        invariant
            views(parts@) == p,
            last == parts.len() - 1,
            i <= last,
            views(out@) == Seq::new(i as nat, |j: int| without_return(p[j])),
        decreases last - i,
    {
        let chars: Vec<char> = chars_of(parts[i].as_str());
        assert(chars@ == p[i as int]);
        let end: usize = if chars.len() > 0 && chars[chars.len() - 1] == '\r' {
            chars.len() - 1
        } else {
            chars.len()
        };
        let line: String = string_between(&chars, 0, end);
        assert(line@ == without_return(p[i as int]));
        let ghost before = views(out@);
        out.push(line);
        assert(views(out@) == before.push(line@));
        i += 1;
        assert(views(out@) == Seq::new(i as nat, |j: int| without_return(p[j])));
    }
    assert(parts[last as int]@ == p.last());
    if !parts[last].as_str().is_empty() {
        let ghost before = views(out@);
        let tail: String = parts[last].clone();
        out.push(tail);
        assert(views(out@) == before.push(p.last()));
    }
    out
}

/// The parts one after the other, with `sep` between them.
pub open spec fn joined(parts: Seq<Seq<char>>, sep: Seq<char>) -> Seq<char>
    decreases parts.len(),
{
    if parts.len() == 0 {
        Seq::empty()
    } else if parts.len() == 1 {
        parts[0]
    } else {
        joined(parts.drop_last(), sep) + sep + parts.last()
    }
}

/// The parts one after the other, with `sep` between them.
pub fn join_text(parts: &Vec<String>, sep: &str) -> (r: String)
    ensures
        r@ == joined(views(parts@), sep@),
{
    let ghost all = views(parts@);
    let mut out: String = String::new();
    let mut i: usize = 0;
    while i < parts.len()
        invariant
            i <= parts.len(),
            all == views(parts@),
            out@ == joined(all.take(i as int), sep@),
        decreases parts.len() - i,
    {
        if i > 0 {
            out.append(sep);
        }
        out.append(parts[i].as_str());
        proof {
            let next = all.take(i + 1);
            assert(next.drop_last() == all.take(i as int));
            assert(next.last() == parts[i as int]@);
            if i == 0 {
                assert(Seq::<char>::empty() + next[0] == next[0]);
            }
        }
        i += 1;
    }
    assert(all.take(i as int) == all);
    out
}

// --- Order ------------------------------------------------------------------------

/// `a` comes before `b` character by character, by code point.
pub open spec fn precedes(a: Seq<char>, b: Seq<char>) -> bool
    decreases a.len(),
{
    if b.len() == 0 {
        false
    } else if a.len() == 0 {
        true
    } else if a[0] != b[0] {
        a[0] < b[0]
    } else {
        precedes(a.skip(1), b.skip(1))
    }
}

/// No text precedes itself, and of two texts that follow one another only one
/// precedes the other.
pub proof fn lemma_precedes_total(a: Seq<char>, b: Seq<char>)
    ensures
        precedes(a, b) ==> !precedes(b, a) && a != b,
        a != b ==> precedes(a, b) || precedes(b, a),
    decreases a.len(),
{
    if a.len() > 0 && b.len() > 0 && a[0] == b[0] {
        lemma_precedes_total(a.skip(1), b.skip(1));
        if a.skip(1) == b.skip(1) {
            assert(a == seq![a[0]] + a.skip(1));
            assert(b == seq![b[0]] + b.skip(1));
        }
    } else if a.len() == 0 && b.len() == 0 {
        assert(a == b);
    }
}

/// What precedes a text precedes all that it precedes.
pub proof fn lemma_precedes_transitive(a: Seq<char>, b: Seq<char>, c: Seq<char>)
    requires
        precedes(a, b),
        precedes(b, c),
    ensures
        precedes(a, c),
    decreases a.len(),
{
    if a.len() > 0 && b.len() > 0 && c.len() > 0 && a[0] == b[0] && b[0] == c[0] {
        lemma_precedes_transitive(a.skip(1), b.skip(1), c.skip(1));
    }
}

/// Whether `a` comes before `b`.
pub fn comes_before(a: &str, b: &str) -> (r: bool)
    ensures
        r == precedes(a@, b@),
{
    let x: Vec<char> = chars_of(a);
    let y: Vec<char> = chars_of(b);
    let mut i: usize = 0;
    assert(x@.skip(0) == x@);
    assert(y@.skip(0) == y@);
    loop
        invariant
            i <= x.len(),
            i <= y.len(),
            x@ == a@,
            y@ == b@,
            precedes(a@, b@) == precedes(x@.skip(i as int), y@.skip(i as int)),
        decreases x.len() - i,
    {
        if i == y.len() {
            return false;
        }
        if i == x.len() {
            return true;
        }
        assert(x@.skip(i as int)[0] == x@[i as int]);
        assert(y@.skip(i as int)[0] == y@[i as int]);
        if x[i] != y[i] {
            return x[i] < y[i];
        }
        assert(x@.skip(i as int).skip(1) == x@.skip(i + 1));
        assert(y@.skip(i as int).skip(1) == y@.skip(i + 1));
        i += 1;
    }
}

proof fn lemma_hex4(n: nat)
    requires
        n < 65536,
    ensures
        hex_prefixed(n, 4) == seq![
            '0',
            'x',
            digit_char(n / 4096),
            digit_char(n / 256 % 16),
            digit_char(n / 16 % 16),
            digit_char(n % 16),
        ],
{
    let (a, b, c, d) = (n / 4096, n / 256 % 16, n / 16 % 16, n % 16);
    let (m, k) = (n / 16, n / 256);
    assert(m / 16 == k && k / 16 == a && m % 16 == c && k % 16 == b);
    reveal_with_fuel(digits, 5);
    if n < 16 {
        assert(hex(n) =~= seq![digit_char(d)]);
    } else if n < 256 {
        assert(hex(n) =~= seq![digit_char(c), digit_char(d)]);
    } else if n < 4096 {
        assert(hex(n) =~= seq![digit_char(b), digit_char(c), digit_char(d)]);
    } else {
        assert(hex(n) =~= seq![digit_char(a), digit_char(b), digit_char(c), digit_char(d)]);
    }
    assert(digit_char(0) == '0');
    assert(hex_prefixed(n, 4) =~= seq![
        '0',
        'x',
        digit_char(a),
        digit_char(b),
        digit_char(c),
        digit_char(d),
    ]);
}

/// Two texts stand as they did when the same text is put before both.
pub proof fn lemma_precedes_behind(start: Seq<char>, a: Seq<char>, b: Seq<char>)
    ensures
        precedes(start + a, start + b) == precedes(a, b),
    decreases start.len(),
{
    if start.len() == 0 {
        assert(start + a == a);
        assert(start + b == b);
    } else {
        lemma_precedes_behind(start.skip(1), a, b);
        assert((start + a).skip(1) == start.skip(1) + a);
        assert((start + b).skip(1) == start.skip(1) + b);
    }
}

proof fn lemma_hex4_places(m: nat, n: nat)
    requires
        m < n < 65536,
    ensures
        ({
            let (a, b, c, d) = (m / 4096, m / 256 % 16, m / 16 % 16, m % 16);
            let (p, q, r, s) = (n / 4096, n / 256 % 16, n / 16 % 16, n % 16);
            &&& a < 16 && b < 16 && c < 16 && d < 16
            &&& p < 16 && q < 16 && r < 16 && s < 16
            &&& a < p || (a == p && (b < q || (b == q && (c < r || (c == r && d < s)))))
        }),
{
    lemma_places(m);
    lemma_places(n);
    lemma_last_place(m, n);
    if m / 16 < n / 16 {
        lemma_last_place(m / 16, n / 16);
        if m / 256 < n / 256 {
            lemma_last_place(m / 256, n / 256);
        }
    }
}

proof fn lemma_places(n: nat)
    requires
        n < 65536,
    ensures
        n / 16 / 16 == n / 256,
        n / 256 / 16 == n / 4096,
        n / 4096 < 16,
{
}

proof fn lemma_last_place(m: nat, n: nat)
    requires
        m < n,
    ensures
        m / 16 < n / 16 || (m / 16 == n / 16 && m % 16 < n % 16),
{
}

/// Numbers of up to four hexadecimal digits, filled up with zeros, stand in the
/// order of their texts.
pub proof fn lemma_hex4_order(m: nat, n: nat)
    requires
        m < n < 65536,
    ensures
        precedes(hex_prefixed(m, 4), hex_prefixed(n, 4)),
{
    lemma_hex4(m);
    lemma_hex4(n);
    lemma_hex4_places(m, n);
    let (a, b, c, d) = (m / 4096, m / 256 % 16, m / 16 % 16, m % 16);
    let (p, q, r, s) = (n / 4096, n / 256 % 16, n / 16 % 16, n % 16);
    let x4 = seq![digit_char(d)];
    let y4 = seq![digit_char(s)];
    let x3 = seq![digit_char(c)] + x4;
    let y3 = seq![digit_char(r)] + y4;
    let x2 = seq![digit_char(b)] + x3;
    let y2 = seq![digit_char(q)] + y3;
    let x1 = seq![digit_char(a)] + x2;
    let y1 = seq![digit_char(p)] + y2;
    assert(forall|i: nat, j: nat| i < j < 16 ==> digit_char(i) < digit_char(j));
    if a == p {
        if b == q {
            if c == r {
                assert(precedes(x4, y4));
                lemma_precedes_behind(seq![digit_char(c)], x4, y4);
            }
            assert(precedes(x3, y3));
            lemma_precedes_behind(seq![digit_char(b)], x3, y3);
        }
        assert(precedes(x2, y2));
        lemma_precedes_behind(seq![digit_char(a)], x2, y2);
    }
    assert(precedes(x1, y1));
    lemma_precedes_behind(seq!['x'], x1, y1);
    lemma_precedes_behind(seq!['0'], seq!['x'] + x1, seq!['x'] + y1);
    assert(hex_prefixed(m, 4) =~= seq!['0'] + (seq!['x'] + x1));
    assert(hex_prefixed(n, 4) =~= seq!['0'] + (seq!['x'] + y1));
}

/// Place `i` comes before place `j` when its key does, and, of equal keys, when
/// it is the earlier place.
pub open spec fn place_before(keys: Seq<Seq<char>>, i: int, j: int) -> bool {
    precedes(keys[i], keys[j]) || (keys[i] == keys[j] && i < j)
}

/// `order` lists every place of `keys` once, by key and then by place.
pub open spec fn is_order_of(order: Seq<usize>, keys: Seq<Seq<char>>) -> bool {
    &&& order.len() == keys.len()
    &&& forall|i: int| 0 <= i < order.len() ==> (#[trigger] order[i]) < keys.len()
    &&& forall|i: int, j: int|
        0 <= i < j < order.len() ==> place_before(
            keys,
            #[trigger] order[i] as int,
            #[trigger] order[j] as int,
        )
}

proof fn lemma_place_before_transitive(keys: Seq<Seq<char>>, i: int, j: int, k: int)
    requires
        place_before(keys, i, j),
        place_before(keys, j, k),
    ensures
        place_before(keys, i, k),
{
    if precedes(keys[i], keys[j]) && precedes(keys[j], keys[k]) {
        lemma_precedes_transitive(keys[i], keys[j], keys[k]);
    }
}

/// An order lists no place twice.
pub proof fn lemma_order_is_injective(order: Seq<usize>, keys: Seq<Seq<char>>, i: int, j: int)
    requires
        is_order_of(order, keys),
        0 <= i < j < order.len(),
    ensures
        order[i] != order[j],
{
    assert(place_before(keys, order[i] as int, order[j] as int));
    lemma_precedes_total(keys[order[i] as int], keys[order[j] as int]);
}

/// An order lists every place.
pub proof fn lemma_order_is_complete(order: Seq<usize>, keys: Seq<Seq<char>>, k: int)
    requires
        is_order_of(order, keys),
        0 <= k < keys.len(),
    ensures
        exists|i: int| 0 <= i < order.len() && order[i] == k,
{
    let places = Seq::new(order.len(), |i: int| order[i] as int);
    let all = vstd::set_lib::set_int_range(0, keys.len() as int);
    assert(places.no_duplicates()) by {
        assert forall|i: int, j: int|
            0 <= i < places.len() && 0 <= j < places.len() && i != j implies places[i]
            != places[j] by {
            if i < j {
                lemma_order_is_injective(order, keys, i, j);
            } else {
                lemma_order_is_injective(order, keys, j, i);
            }
        }
    }
    places.unique_seq_to_set();
    vstd::set_lib::lemma_int_range(0, keys.len() as int);
    assert(places.to_set().subset_of(all));
    vstd::set_lib::lemma_len_subset(places.to_set(), all);
    vstd::set_lib::lemma_subset_equality(places.to_set(), all);
    assert(places.to_set().contains(k));
    let i = choose|i: int| 0 <= i < places.len() && places[i] == k;
    assert(order[i] == k);
}

/// Keys have one order only.
pub proof fn lemma_order_is_unique(a: Seq<usize>, b: Seq<usize>, keys: Seq<Seq<char>>)
    requires
        is_order_of(a, keys),
        is_order_of(b, keys),
    ensures
        a == b,
{
    assert forall|k: int| 0 <= k <= a.len() implies #[trigger] a.take(k) == b.take(k) by {
        lemma_orders_agree(a, b, keys, k);
    }
    assert(a.take(a.len() as int) == a);
    assert(b.take(b.len() as int) == b);
}

proof fn lemma_orders_agree(a: Seq<usize>, b: Seq<usize>, keys: Seq<Seq<char>>, k: int)
    requires
        is_order_of(a, keys),
        is_order_of(b, keys),
        0 <= k <= a.len(),
    ensures
        a.take(k) == b.take(k),
    decreases k,
{
    if k > 0 {
        lemma_orders_agree(a, b, keys, k - 1);
        lemma_not_later(a, b, keys, k - 1);
        lemma_not_later(b, a, keys, k - 1);
        let x = a[k - 1] as int;
        let y = b[k - 1] as int;
        assert(x == y) by {
            lemma_precedes_total(keys[x], keys[y]);
        }
        assert(a.take(k) == a.take(k - 1).push(a[k - 1]));
        assert(b.take(k) == b.take(k - 1).push(b[k - 1]));
    }
}

/// Where two orders begin alike, the next place of one does not come before the
/// next place of the other.
proof fn lemma_not_later(a: Seq<usize>, b: Seq<usize>, keys: Seq<Seq<char>>, k: int)
    requires
        is_order_of(a, keys),
        is_order_of(b, keys),
        0 <= k < a.len(),
        a.take(k) == b.take(k),
    ensures
        !place_before(keys, b[k] as int, a[k] as int),
{
    lemma_order_is_complete(a, keys, b[k] as int);
    let i = choose|i: int| 0 <= i < a.len() && a[i] == b[k];
    if i < k {
        assert(a.take(k)[i] == a[i]);
        assert(b.take(k)[i] == b[i]);
        lemma_order_is_injective(b, keys, i, k);
    } else if k < i {
        assert(place_before(keys, a[k] as int, a[i] as int));
    }
    lemma_precedes_total(keys[a[k] as int], keys[b[k] as int]);
}

/// The places of `keys` by key, and, of equal keys, by place.
pub open spec fn order_by_key(keys: Seq<Seq<char>>) -> Seq<usize> {
    choose|order: Seq<usize>| is_order_of(order, keys)
}

/// Where the place `x` stands among the places of `order`, when it comes before
/// those from `m` on.
proof fn lemma_place_for(order: Seq<usize>, keys: Seq<Seq<char>>, x: int, m: int) -> (pos: int)
    requires
        0 <= m <= order.len(),
        forall|i: int| 0 <= i < order.len() ==> (#[trigger] order[i]) != x,
        forall|i: int, j: int|
            0 <= i < j < order.len() ==> place_before(
                keys,
                #[trigger] order[i] as int,
                #[trigger] order[j] as int,
            ),
        forall|i: int| m <= i < order.len() ==> place_before(keys, x, #[trigger] order[i] as int),
    ensures
        0 <= pos <= order.len(),
        forall|i: int| 0 <= i < pos ==> place_before(keys, #[trigger] order[i] as int, x),
        forall|i: int| pos <= i < order.len() ==> place_before(keys, x, #[trigger] order[i] as int),
    decreases m,
{
    if m == 0 {
        0
    } else if place_before(keys, x, order[m - 1] as int) {
        lemma_place_for(order, keys, x, m - 1)
    } else {
        let p = order[m - 1] as int;
        lemma_precedes_total(keys[p], keys[x]);
        assert forall|i: int| 0 <= i < m implies place_before(
            keys,
            #[trigger] order[i] as int,
            x,
        ) by {
            if i < m - 1 {
                lemma_place_before_transitive(keys, order[i] as int, p, x);
            }
        }
        m
    }
}

/// Keys have an order.
pub proof fn lemma_order_exists(keys: Seq<Seq<char>>)
    requires
        keys.len() <= usize::MAX,
    ensures
        is_order_of(order_by_key(keys), keys),
    decreases keys.len(),
{
    if keys.len() == 0 {
        assert(is_order_of(Seq::empty(), keys));
    } else {
        let before = keys.drop_last();
        lemma_order_exists(before);
        let o = order_by_key(before);
        let n = keys.len() - 1;
        assert forall|i: int, j: int| 0 <= i < j < o.len() implies place_before(
            keys,
            #[trigger] o[i] as int,
            #[trigger] o[j] as int,
        ) by {
            assert(place_before(before, o[i] as int, o[j] as int));
        }
        let pos = lemma_place_for(o, keys, n, n);
        let order = o.insert(pos, n as usize);
        assert forall|i: int, j: int| 0 <= i < j < order.len() implies place_before(
            keys,
            #[trigger] order[i] as int,
            #[trigger] order[j] as int,
        ) by {
            let a = if i < pos { o[i] as int } else if i == pos { n } else { o[i - 1] as int };
            let b = if j < pos { o[j] as int } else if j == pos { n } else { o[j - 1] as int };
            assert(a == order[i] as int && b == order[j] as int);
        }
        assert(is_order_of(order, keys));
    }
}

/// The items at the places, in the order of the places.
pub open spec fn at_places<A>(items: Seq<A>, places: Seq<usize>) -> Seq<A> {
    Seq::new(places.len(), |i: int| items[places[i] as int])
}

/// The places of `keys` in the order of their keys; equal keys keep their order.
pub fn order_of(keys: &Vec<String>) -> (r: Vec<usize>)
    ensures
        is_order_of(r@, views(keys@)),
        r@ == order_by_key(views(keys@)),
{
    let ghost ks = views(keys@);
    let mut out: Vec<usize> = Vec::new();
    let mut k: usize = 0;
    while k < keys.len()
        invariant
            k <= keys.len(),
            ks == views(keys@),
            out.len() == k,
            forall|i: int| 0 <= i < out.len() ==> (#[trigger] out[i]) < k,
            forall|i: int, j: int|
                0 <= i < j < out.len() ==> place_before(
                    ks,
                    #[trigger] out[i] as int,
                    #[trigger] out[j] as int,
                ),
        decreases keys.len() - k,
    {
        let mut pos: usize = out.len();
        while pos > 0 && comes_before(keys[k].as_str(), keys[out[pos - 1]].as_str())
            invariant
                pos <= out.len(),
                k < keys.len(),
                ks == views(keys@),
                out.len() == k,
                forall|i: int| 0 <= i < out.len() ==> (#[trigger] out[i]) < k,
                forall|i: int|
                    pos <= i < out.len() ==> place_before(ks, k as int, #[trigger] out[i] as int),
            decreases pos,
        {
            pos -= 1;
        }
        proof {
            if pos > 0 {
                let p = out[pos - 1] as int;
                lemma_precedes_total(ks[p], ks[k as int]);
                assert(place_before(ks, p, k as int));
                assert forall|i: int| 0 <= i < pos implies place_before(
                    ks,
                    #[trigger] out[i] as int,
                    k as int,
                ) by {
                    if i < pos - 1 {
                        lemma_place_before_transitive(ks, out[i] as int, p, k as int);
                    }
                }
            }
        }
        let ghost before = out@;
        out.insert(pos, k);
        proof {
            assert(out@ == before.insert(pos as int, k));
            assert forall|i: int, j: int| 0 <= i < j < out.len() implies place_before(
                ks,
                #[trigger] out[i] as int,
                #[trigger] out[j] as int,
            ) by {
                let a = if i < pos { before[i] as int } else if i == pos { k as int } else {
                    before[i - 1] as int
                };
                let b = if j < pos { before[j] as int } else if j == pos { k as int } else {
                    before[j - 1] as int
                };
                assert(a == out[i] as int && b == out[j] as int);
            }
        }
        k += 1;
    }
    proof {
        lemma_order_is_unique(out@, order_by_key(ks), ks);
    }
    out
}

/// Each text comes before all later ones.
pub open spec fn is_increasing(s: Seq<Seq<char>>) -> bool {
    forall|i: int, j: int| 0 <= i < j < s.len() ==> precedes(#[trigger] s[i], #[trigger] s[j])
}

/// Keys in their order are ascending, and increasing when no two are the same.
pub proof fn lemma_keys_in_order(keys: Seq<Seq<char>>)
    requires
        keys.len() <= usize::MAX,
    ensures
        is_ascending(at_places(keys, order_by_key(keys))),
        keys.no_duplicates() ==> is_increasing(at_places(keys, order_by_key(keys))),
{
    lemma_order_exists(keys);
    let order = order_by_key(keys);
    let sorted = at_places(keys, order);
    assert forall|i: int, j: int| 0 <= i < j < sorted.len() implies {
        &&& !precedes(#[trigger] sorted[j], #[trigger] sorted[i])
        &&& keys.no_duplicates() ==> precedes(sorted[i], sorted[j])
    } by {
        assert(place_before(keys, order[i] as int, order[j] as int));
        lemma_precedes_total(sorted[i], sorted[j]);
        lemma_order_is_injective(order, keys, i, j);
    }
}

/// No text comes after a later one.
pub open spec fn is_ascending(s: Seq<Seq<char>>) -> bool {
    forall|i: int, j: int| 0 <= i < j < s.len() ==> !precedes(#[trigger] s[j], #[trigger] s[i])
}

/// The texts of `names` that begin with `prefix`, in their order.
pub open spec fn with_prefix(names: Seq<Seq<char>>, prefix: Seq<char>) -> Seq<Seq<char>> {
    names.filter(|n: Seq<char>| begins_with(n, prefix))
}

/// Of two sequences of texts in ascending order with the same texts, each as
/// often, one is the other: the order leaves no choice.
pub proof fn lemma_ascending_unique(a: Seq<Seq<char>>, b: Seq<Seq<char>>)
    requires
        is_ascending(a),
        is_ascending(b),
        a.to_multiset() == b.to_multiset(),
    ensures
        a == b,
    decreases a.len(),
{
    broadcast use vstd::seq_lib::group_to_multiset_ensures;

    a.to_multiset_ensures();
    b.to_multiset_ensures();
    assert(a.len() == b.len());
    if a.len() > 0 {
        let x = a.last();
        let y = b.last();
        assert(b.contains(x)) by {
            assert(a.contains(x));
            assert(a.to_multiset().count(x) > 0);
        }
        assert(a.contains(y)) by {
            assert(b.contains(y));
            assert(b.to_multiset().count(y) > 0);
        }
        let i = choose|i: int| 0 <= i < b.len() && b[i] == x;
        let j = choose|j: int| 0 <= j < a.len() && a[j] == y;
        assert(!precedes(y, x)) by {
            if i < b.len() - 1 {
                assert(!precedes(b[b.len() - 1], b[i]));
            } else {
                lemma_precedes_total(x, x);
            }
        }
        assert(!precedes(x, y)) by {
            if j < a.len() - 1 {
                assert(!precedes(a[a.len() - 1], a[j]));
            } else {
                lemma_precedes_total(x, x);
            }
        }
        lemma_precedes_total(x, y);
        assert(a.drop_last() == a.remove(a.len() - 1));
        assert(b.drop_last() == b.remove(b.len() - 1));
        lemma_ascending_unique(a.drop_last(), b.drop_last());
        assert(a == a.drop_last().push(x));
        assert(b == b.drop_last().push(y));
    }
}

/// The names that begin with `prefix`, in ascending order.
pub fn sorted_entries(names: &Vec<String>, prefix: &str) -> (r: Vec<String>)
    ensures
        is_ascending(views(r@)),
        views(r@).to_multiset() == with_prefix(views(names@), prefix@).to_multiset(),
{
    let ghost all = views(names@);
    let mut out: Vec<String> = Vec::new();
    let mut k: usize = 0;
    assert(all.take(0) == Seq::<Seq<char>>::empty());
    assert(views(out@) == Seq::<Seq<char>>::empty());
    assert(with_prefix(all.take(0), prefix@) == Seq::<Seq<char>>::empty()) by {
        reveal(Seq::filter);
    }
    while k < names.len()
        invariant
            k <= names.len(),
            all == views(names@),
            is_ascending(views(out@)),
            views(out@).to_multiset() == with_prefix(all.take(k as int), prefix@).to_multiset(),
        decreases names.len() - k,
    {
        broadcast use vstd::seq_lib::group_to_multiset_ensures;

        let ghost pred = |n: Seq<char>| begins_with(n, prefix@);
        let ghost done = all.take(k as int);
        proof {
            assert(all.take(k + 1) == done.push(all[k as int]));
            done.lemma_filter_push(all[k as int], pred);
        }
        if str_starts_with(names[k].as_str(), prefix) {
            let name: String = names[k].clone();
            let ghost x = name@;
            let mut pos: usize = out.len();
            while pos > 0 && comes_before(name.as_str(), out[pos - 1].as_str())
                invariant
                    pos <= out.len(),
                    x == name@,
                    forall|i: int| pos <= i < out.len() ==> precedes(x, (#[trigger] out[i])@),
                decreases pos,
            {
                pos -= 1;
            }
            let ghost before = views(out@);
            out.insert(pos, name);
            proof {
                let after = views(out@);
                assert(after == before.insert(pos as int, x));
                assert(after.remove(pos as int) == before);
                assert(after[pos as int] == x);
                assert(after.contains(x));
                assert(before.to_multiset() == after.to_multiset().remove(x));
                assert(after.to_multiset() =~= before.to_multiset().insert(x));
                assert forall|i: int, j: int| 0 <= i < j < after.len() implies !precedes(
                    #[trigger] after[j],
                    #[trigger] after[i],
                ) by {
                    if j == pos {
                        assert(after[i] == before[i]);
                        if i < pos - 1 {
                            assert(!precedes(before[pos - 1], before[i]));
                            assert(!precedes(x, before[pos - 1]));
                            lemma_precedes_total(x, before[pos - 1]);
                            lemma_precedes_total(before[pos - 1], before[i]);
                            if precedes(x, before[i]) {
                                if before[pos - 1] != x {
                                    lemma_precedes_transitive(before[pos - 1], x, before[i]);
                                }
                            }
                        }
                    } else if i == pos {
                        assert(after[j] == before[j - 1]);
                        assert(precedes(x, before[j - 1]));
                        lemma_precedes_total(x, before[j - 1]);
                    } else {
                        let a = if i < pos { i } else { i - 1 };
                        let b = if j < pos { j } else { j - 1 };
                        assert(after[i] == before[a] && after[j] == before[b]);
                    }
                }
            }
        }
        k += 1;
    }
    assert(all.take(k as int) == all);
    out
}

/// The text filled up with spaces to a width.
pub open spec fn padded(s: Seq<char>, width: nat) -> Seq<char> {
    if s.len() >= width {
        s
    } else {
        s + Seq::new((width - s.len()) as nat, |i: int| ' ')
    }
}

/// The text filled up with spaces to a width.
pub fn padded_text(s: &str, width: usize) -> (r: String)
    ensures
        r@ == padded(s@, width as nat),
{
    let mut out: String = s.to_string();
    let mut n: usize = chars_of(s).len();
    let ghost start = n as int;
    while n < width
        invariant
            start == s@.len(),
            start <= n,
            n <= width || n == start,
            out@ == s@ + Seq::new((n - start) as nat, |i: int| ' '),
        decreases width - n,
    {
        out.push(' ');
        n += 1;
        assert(out@ =~= s@ + Seq::new((n - start) as nat, |i: int| ' '));
    }
    assert(out@ =~= padded(s@, width as nat));
    out
}

// --- Paths ------------------------------------------------------------------------

/// The path of a name below a directory; a name that is a full path stays as it is.
pub open spec fn below(dir: Seq<char>, name: Seq<char>) -> Seq<char> {
    if name.len() > 0 && name[0] == '/' {
        name
    } else if dir.len() == 0 || dir.last() == '/' {
        dir + name
    } else {
        dir + "/"@ + name
    }
}

/// The path of a name below a directory.
pub fn path_below(dir: &str, name: &str) -> (r: String)
    ensures
        r@ == below(dir@, name@),
{
    let n: Vec<char> = chars_of(name);
    if n.len() > 0 && n[0] == '/' {
        return name.to_string();
    }
    let chars: Vec<char> = chars_of(dir);
    let mut out: String = dir.to_string();
    if chars.len() > 0 && chars[chars.len() - 1] != '/' {
        out.append("/");
    }
    out.append(name);
    out
}

// --- Bytes ------------------------------------------------------------------------

/// The text that `String::from_utf8_lossy` makes of bytes.
pub uninterp spec fn utf8_lossy(bytes: Seq<u8>) -> Seq<char>;

/// `String::from_utf8_lossy`: the text of the bytes, with the replacement
/// character where they are not UTF-8. Bytes that are UTF-8 are kept: the
/// text's own bytes are those given. What replaces ill-formed bytes is only
/// named.
#[verifier::external_body]
pub(crate) fn lossy_text(bytes: &[u8]) -> (r: String)
    ensures
        r@ == utf8_lossy(bytes@),
        vstd::utf8::valid_utf8(bytes@) ==> vstd::utf8::encode_utf8(r@) == bytes@,
{
    String::from_utf8_lossy(bytes).into_owned()
}

// --- Laws of texts ------------------------------------------------------------------------------

/// The pieces of a text do not hold the character that parts them, and put together
/// with it they are the text.
pub proof fn law_pieces_make_the_text(s: Seq<char>, c: char)
    ensures
        split_on(s, c).len() > 0,
        forall|i: int|
            0 <= i < split_on(s, c).len() ==> !(#[trigger] split_on(s, c)[i]).contains(c),
        joined(split_on(s, c), seq![c]) == s,
    decreases s.len(),
{
    lemma_first_of(s, c);
    let i = first_of(s, c);
    let all = split_on(s, c);
    if i >= s.len() {
        assert(all =~= seq![s]);
        assert(!s.contains(c)) by {
            if s.contains(c) {
                let k = choose|k: int| 0 <= k < s.len() && s[k] == c;
                assert(s[k] != c);
            }
        }
    } else {
        let head = s.take(i);
        let rest = s.skip(i + 1);
        let tail = split_on(rest, c);
        law_pieces_make_the_text(rest, c);
        assert(all =~= seq![head] + tail);
        assert(!head.contains(c)) by {
            if head.contains(c) {
                let k = choose|k: int| 0 <= k < head.len() && head[k] == c;
                assert(s[k] != c);
            }
        }
        assert forall|j: int| 0 <= j < all.len() implies !(#[trigger] all[j]).contains(c) by {
            if j > 0 {
                assert(all[j] == tail[j - 1]);
            }
        }
        lemma_joined_head(head, tail, seq![c]);
        assert(s =~= head + seq![c] + rest);
    }
}

proof fn lemma_joined_head(head: Seq<char>, tail: Seq<Seq<char>>, sep: Seq<char>)
    requires
        tail.len() > 0,
    ensures
        joined(seq![head] + tail, sep) == head + sep + joined(tail, sep),
    decreases tail.len(),
{
    let all = seq![head] + tail;
    if tail.len() == 1 {
        assert(all.drop_last() =~= seq![head]);
        assert(all.last() == tail[0]);
        assert(joined(all.drop_last(), sep) == head);
    } else {
        lemma_joined_head(head, tail.drop_last(), sep);
        assert(all.drop_last() =~= seq![head] + tail.drop_last());
        assert(all.last() == tail.last());
        assert(joined(all, sep) =~= head + sep + joined(tail, sep));
    }
}

/// What is left between the white space at both ends: a part of the text that neither
/// begins nor ends with white space, with nothing but white space before and after it.
pub proof fn law_trimming(s: Seq<char>)
    ensures
        exists|a: int, b: int|
            {
                &&& 0 <= a <= b <= s.len()
                &&& trim(s) == #[trigger] s.subrange(a, b)
                &&& forall|i: int| 0 <= i < a ==> is_white(#[trigger] s[i])
                &&& forall|i: int| b <= i < s.len() ==> is_white(#[trigger] s[i])
                &&& a < b ==> !is_white(s[a]) && !is_white(s[b - 1])
            },
{
    let b = lemma_trimmed_end(s);
    let t = s.take(b);
    let a = lemma_trimmed_start(t);
    assert(t.skip(a) =~= s.subrange(a, b));
    assert forall|i: int| 0 <= i < a implies is_white(#[trigger] s[i]) by {
        assert(t[i] == s[i]);
    }
    if a < b {
        assert(t[a] == s[a]);
        assert(t.last() == s[b - 1]);
    }
    assert(trim(s) == s.subrange(a, b));
}

proof fn lemma_trimmed_end(s: Seq<char>) -> (b: int)
    ensures
        0 <= b <= s.len(),
        trim_end(s) == s.take(b),
        forall|i: int| b <= i < s.len() ==> is_white(#[trigger] s[i]),
        b > 0 ==> !is_white(s[b - 1]),
    decreases s.len(),
{
    if s.len() > 0 && is_white(s.last()) {
        let b = lemma_trimmed_end(s.drop_last());
        assert(s.drop_last().take(b) =~= s.take(b));
        assert forall|i: int| b <= i < s.len() implies is_white(#[trigger] s[i]) by {
            if i < s.len() - 1 {
                assert(s.drop_last()[i] == s[i]);
            }
        }
        b
    } else {
        assert(s.take(s.len() as int) =~= s);
        s.len() as int
    }
}

proof fn lemma_trimmed_start(s: Seq<char>) -> (a: int)
    ensures
        0 <= a <= s.len(),
        trim_start(s) == s.skip(a),
        forall|i: int| 0 <= i < a ==> is_white(#[trigger] s[i]),
        a < s.len() ==> !is_white(s[a]),
    decreases s.len(),
{
    if s.len() > 0 && is_white(s[0]) {
        let a = lemma_trimmed_start(s.skip(1));
        assert(s.skip(1).skip(a) =~= s.skip(a + 1));
        assert forall|i: int| 0 <= i < a + 1 implies is_white(#[trigger] s[i]) by {
            if i > 0 {
                assert(s.skip(1)[i - 1] == s[i]);
            }
        }
        a + 1
    } else {
        assert(s.skip(0) =~= s);
        0
    }
}

/// A sign tells the negative numbers from the others, and what follows it is the
/// number without its sign.
pub proof fn law_signs_of_numbers(i: int)
    ensures
        i < 0 ==> signed(i) == seq!['-'] + dec((-i) as nat) && with_sign(i) == signed(i),
        i >= 0 ==> signed(i) == dec(i as nat) && with_sign(i) == seq!['+'] + dec(i as nat),
{
}

/// Texts are filled up to their width and not cut: zeros come before, spaces after.
pub proof fn law_filling(s: Seq<char>, width: nat)
    ensures
        zero_fill(s, width).len() == padded(s, width).len(),
        padded(s, width).len() == (if s.len() >= width {
            s.len()
        } else {
            width
        }),
        padded(s, width).take(s.len() as int) == s,
        zero_fill(s, width).skip(zero_fill(s, width).len() - s.len()) == s,
{
    assert(padded(s, width).take(s.len() as int) =~= s);
    assert(zero_fill(s, width).skip(zero_fill(s, width).len() - s.len()) =~= s);
}

} // verus!
