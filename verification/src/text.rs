//! Character-level string helpers with exact specifications.

use vstd::prelude::*;

verus! {

/// Appends one character to a string (`String::push`).
/// Trusted: the new contents are the old contents followed by `c`.
#[verifier::external_body]
pub(crate) fn push_char(s: &mut String, c: char)
    ensures
        final(s)@ == old(s)@.push(c),
{
    s.push(c);
}

/// The characters of `s`, in order.
pub fn chars_of(s: &str) -> (v: Vec<char>)
    ensures
        v@ == s@,
{
    let mut v: Vec<char> = Vec::new();
    for c in it: s.chars()
        invariant
            v@ == it.seq().take(it.index() as int),
    {
        v.push(c);
    }
    v
}

} // verus!

verus! {

/// The character of a decimal digit.
pub open spec fn digit_char(d: nat) -> char {
    (48 + d) as char
}

/// The decimal notation of `n`, without sign or leading zeros.
pub open spec fn decimal(n: nat) -> Seq<char>
    decreases n,
{
    if n < 10 {
        seq![digit_char(n)]
    } else {
        decimal(n / 10).push(digit_char(n % 10))
    }
}

fn digit(d: u64) -> (c: char)
    requires
        d < 10,
    ensures
        c == digit_char(d as nat),
{
    let b: u8 = 48u8 + d as u8;
    b as char
}

/// Appends the decimal notation of `n` to `s`.
pub fn push_decimal(s: &mut String, n: u64)
    ensures
        final(s)@ == old(s)@ + decimal(n as nat),
    decreases n,
{
    if n >= 10 {
        push_decimal(s, n / 10);
    }
    push_char(s, digit(n % 10));
    proof {
        if n >= 10 {
            assert(decimal(n as nat) == decimal((n / 10) as nat).push(digit_char((n % 10) as nat)));
        }
    }
}

/// The decimal notation of `n`.
pub fn decimal_string(n: u64) -> (s: String)
    ensures
        s@ == decimal(n as nat),
{
    let mut s = String::new();
    push_decimal(&mut s, n);
    s
}

} // verus!

verus! {

/// Three decimal digits of `n` (below one thousand), with leading zeros.
pub open spec fn three_digits(n: nat) -> Seq<char> {
    seq![digit_char(n / 100), digit_char((n / 10) % 10), digit_char(n % 10)]
}

/// The decimal notation of `n` with a comma between each group of three
/// digits, counted from the right: `1234567` is `1,234,567`.
pub open spec fn grouped(n: nat) -> Seq<char>
    decreases n,
{
    if n < 1000 {
        decimal(n)
    } else {
        grouped(n / 1000) + seq![','] + three_digits(n % 1000)
    }
}

fn push_three_digits(s: &mut String, n: u64)
    requires
        n < 1000,
    ensures
        final(s)@ == old(s)@ + three_digits(n as nat),
{
    push_char(s, digit(n / 100));
    push_char(s, digit((n / 10) % 10));
    push_char(s, digit(n % 10));
    assert(final(s)@ =~= old(s)@ + three_digits(n as nat));
}

fn push_grouped(s: &mut String, n: u64)
    ensures
        final(s)@ == old(s)@ + grouped(n as nat),
    decreases n,
{
    if n >= 1000 {
        push_grouped(s, n / 1000);
        push_char(s, ',');
        push_three_digits(s, n % 1000);
        assert(final(s)@ =~= old(s)@ + grouped(n as nat));
    } else {
        push_decimal(s, n);
    }
}

/// Formats `n` with thousands separators: `format_number(1234567)` is
/// `"1,234,567"`, `format_number(999)` is `"999"`.
pub fn format_number(n: u32) -> (s: String)
    ensures
        s@ == grouped(n as nat),
{
    let mut s = String::new();
    push_grouped(&mut s, n as u64);
    assert(s@ =~= grouped(n as nat));
    s
}

/// `s` without its commas.
pub open spec fn without_commas(s: Seq<char>) -> Seq<char> {
    s.filter(|c: char| c != ',')
}

proof fn lemma_decimal_has_no_comma(n: nat)
    ensures
        without_commas(decimal(n)) == decimal(n),
    decreases n,
{
    reveal_with_fuel(Seq::filter, 1);
    if n >= 10 {
        lemma_decimal_has_no_comma(n / 10);
        Seq::filter_distributes_over_add(
            decimal(n / 10),
            seq![digit_char(n % 10)],
            |c: char| c != ',',
        );
        assert(decimal(n) =~= decimal(n / 10) + seq![digit_char(n % 10)]);
        assert(seq![digit_char(n % 10)].filter(|c: char| c != ',') =~= seq![digit_char(n % 10)]) by {
            reveal_with_fuel(Seq::filter, 2);
        }
    } else {
        assert(decimal(n).filter(|c: char| c != ',') =~= decimal(n)) by {
            reveal_with_fuel(Seq::filter, 2);
        }
    }
}

proof fn lemma_decimal_split_thousands(n: nat)
    requires
        n >= 1000,
    ensures
        decimal(n) == decimal(n / 1000) + three_digits(n % 1000),
{
    let a = n / 10;
    let b = a / 10;
    let c = b / 10;
    assert(c == n / 1000 && (b % 10) == (n % 1000) / 100 && (a % 10) == ((n % 1000) / 10) % 10
        && n % 10 == (n % 1000) % 10) by (nonlinear_arith)
        requires
            n >= 1000,
            a == n / 10,
            b == a / 10,
            c == b / 10,
    ;
    assert(decimal(n) == decimal(a).push(digit_char(n % 10)));
    assert(decimal(a) == decimal(b).push(digit_char(a % 10)));
    assert(decimal(b) == decimal(c).push(digit_char(b % 10)));
    assert(decimal(n) =~= decimal(c) + three_digits(n % 1000));
}

/// Removing the separators from a grouped number gives back its plain
/// decimal notation.
pub proof fn law_grouping_only_adds_commas(n: nat)
    ensures
        without_commas(grouped(n)) == decimal(n),
    decreases n,
{
    if n < 1000 {
        lemma_decimal_has_no_comma(n);
    } else {
        law_grouping_only_adds_commas(n / 1000);
        let f = |c: char| c != ',';
        let left = grouped(n / 1000) + seq![','];
        Seq::filter_distributes_over_add(left, three_digits(n % 1000), f);
        Seq::filter_distributes_over_add(grouped(n / 1000), seq![','], f);
        assert(seq![','].filter(f) =~= Seq::<char>::empty()) by {
            reveal_with_fuel(Seq::filter, 2);
        }
        assert(three_digits(n % 1000).filter(f) =~= three_digits(n % 1000)) by {
            reveal_with_fuel(Seq::filter, 4);
        }
        lemma_decimal_split_thousands(n);
        assert(without_commas(grouped(n)) =~= decimal(n / 1000) + three_digits(n % 1000));
    }
}

} // verus!

verus! {

/// Appends `v[from..to]` to `s`.
pub(crate) fn push_chars(s: &mut String, v: &Vec<char>, from: usize, to: usize)
    requires
        from <= to <= v@.len(),
    ensures
        final(s)@ == old(s)@ + v@.subrange(from as int, to as int),
{
    let mut i = from;
    while i < to
        invariant
            from <= i <= to <= v@.len(),
            s@ == old(s)@ + v@.subrange(from as int, i as int),
        decreases to - i,
    {
        push_char(s, v[i]);
        i += 1;
        assert(s@ =~= old(s)@ + v@.subrange(from as int, i as int));
    }
}

/// `s` cut to at most `max` characters: a longer `s` keeps its first
/// `max - 1` characters followed by an ellipsis.
pub open spec fn truncated(s: Seq<char>, max: nat) -> Seq<char> {
    if s.len() <= max {
        s
    } else {
        s.take(max - 1).push('…')
    }
}

/// Truncates `s` to `max` characters, marking a cut with `…`.
pub fn truncate(s: &str, max: usize) -> (r: String)
    requires
        s@.len() <= max || max >= 1,
    ensures
        r@ == truncated(s@, max as nat),
        r@.len() <= max || s@.len() <= max,
{
    let v = chars_of(s);
    if v.len() <= max {
        s.to_owned()
    } else {
        let mut r = String::new();
        push_chars(&mut r, &v, 0, max - 1);
        push_char(&mut r, '…');
        assert(r@ =~= truncated(s@, max as nat));
        r
    }
}

} // verus!

verus! {

/// `p` occurs in `s` as a contiguous run of characters (the empty `p`
/// occurs everywhere).
pub open spec fn has_infix(s: Seq<char>, p: Seq<char>) -> bool {
    exists|i: int| 0 <= i && i + p.len() <= s.len() && #[trigger] s.subrange(i, i + p.len()) == p
}

fn matches_at(s: &Vec<char>, p: &Vec<char>, at: usize) -> (b: bool)
    requires
        at + p@.len() <= s@.len(),
    ensures
        b == (s@.subrange(at as int, at + p@.len()) == p@),
{
    let mut j: usize = 0;
    while j < p.len()
        invariant
            at + p@.len() <= s@.len(),
            j <= p@.len(),
            forall|k: int| 0 <= k < j ==> s@[at + k] == p@[k],
        decreases p@.len() - j,
    {
        assert(at + j < s.len());
        if s[at + j] != p[j] {
            assert(s@.subrange(at as int, at + p@.len())[j as int] != p@[j as int]);
            return false;
        }
        j += 1;
    }
    assert(s@.subrange(at as int, at + p@.len()) =~= p@);
    true
}

/// Whether `p` occurs in `s` (`str::contains` on characters).
pub fn contains_chars(s: &Vec<char>, p: &Vec<char>) -> (b: bool)
    ensures
        b == has_infix(s@, p@),
{
    if p.len() > s.len() {
        return false;
    }
    if p.len() == 0 {
        assert(s@.subrange(0, 0int + p@.len()) =~= p@);
        return true;
    }
    let last = s.len() - p.len();
    let mut i: usize = 0;
    while i <= last
        invariant
            last + p@.len() == s@.len(),
            p@.len() >= 1,
            s@.len() <= usize::MAX,
            forall|k: int| 0 <= k < i ==> #[trigger] s@.subrange(k, k + p@.len()) != p@,
        decreases last + 1 - i,
    {
        if matches_at(s, p, i) {
            assert(s@.subrange(i as int, i + p@.len()) == p@);
            return true;
        }
        i += 1;
    }
    false
}

/// The ASCII lowercase of one character; other characters are kept.
pub open spec fn ascii_lower_char(c: char) -> char {
    if 'A' <= c && c <= 'Z' {
        ((c as u32) + 32) as char
    } else {
        c
    }
}

/// The ASCII lowercase of a string (`str::to_ascii_lowercase`).
pub open spec fn ascii_lower(s: Seq<char>) -> Seq<char> {
    s.map_values(|c: char| ascii_lower_char(c))
}

pub fn lower_ascii_char(c: char) -> (r: char)
    ensures
        r == ascii_lower_char(c),
{
    if 'A' <= c && c <= 'Z' {
        let b: u8 = (c as u32 + 32) as u8;
        b as char
    } else {
        c
    }
}

/// The characters of `s` with ASCII letters lowercased.
pub fn ascii_lowercase_chars(s: &str) -> (v: Vec<char>)
    ensures
        v@ == ascii_lower(s@),
{
    let src = chars_of(s);
    let mut v: Vec<char> = Vec::new();
    let mut i: usize = 0;
    while i < src.len()
        invariant
            src@ == s@,
            i <= src@.len(),
            v@ == ascii_lower(s@.take(i as int)),
        decreases src@.len() - i,
    {
        v.push(lower_ascii_char(src[i]));
        i += 1;
        assert(ascii_lower(s@.take(i as int)) =~= ascii_lower(s@.take(i - 1)).push(ascii_lower_char(s@[i - 1])));
    }
    assert(s@.take(i as int) =~= s@);
    v
}

} // verus!

verus! {

/// A string of ASCII characters only.
pub open spec fn all_ascii(s: Seq<char>) -> bool {
    forall|i: int| 0 <= i < s.len() ==> (#[trigger] s[i] as int) < 128
}

/// What `str::to_lowercase` gives for `s`: the Unicode lowercase mapping.
pub uninterp spec fn unicode_lowercase(s: Seq<char>) -> Seq<char>;

/// `str::to_lowercase`. Trusted: the result is the Unicode lowercase of `s`,
/// a function of `s` alone, and for a string of ASCII characters it is the
/// ASCII lowercase (each `A`..`Z` replaced by `a`..`z`), as the standard
/// library documents. What it gives for other characters is left unsaid.
#[verifier::external_body]
pub(crate) fn to_lowercase(s: &str) -> (r: String)
    ensures
        r@ == unicode_lowercase(s@),
        all_ascii(s@) ==> r@ == ascii_lower(s@),
{
    s.to_lowercase()
}

/// What `char::is_alphanumeric` says of `c` (Unicode Alphabetic or Numeric).
pub uninterp spec fn unicode_alphanumeric(c: char) -> bool;

/// An ASCII letter or digit.
pub open spec fn ascii_alphanumeric(c: char) -> bool {
    ('a' <= c && c <= 'z') || ('A' <= c && c <= 'Z') || ('0' <= c && c <= '9')
}

/// `char::is_alphanumeric`. Trusted: the result is a function of `c`, and for
/// an ASCII character it holds exactly of letters and digits.
#[verifier::external_body]
pub(crate) fn is_alphanumeric(c: char) -> (b: bool)
    ensures
        b == unicode_alphanumeric(c),
        (c as int) < 128 ==> b == ascii_alphanumeric(c),
{
    c.is_alphanumeric()
}

/// Whether two character sequences are equal.
pub fn same_chars(a: &Vec<char>, b: &Vec<char>) -> (r: bool)
    ensures
        r == (a@ == b@),
{
    if a.len() != b.len() {
        return false;
    }
    let mut i: usize = 0;
    while i < a.len()
        invariant
            a@.len() == b@.len(),
            i <= a@.len(),
            forall|k: int| 0 <= k < i ==> a@[k] == b@[k],
        decreases a@.len() - i,
    {
        if a[i] != b[i] {
            return false;
        }
        i += 1;
    }
    assert(a@ =~= b@);
    true
}

} // verus!

verus! {

/// `char::is_whitespace`: the characters with the Unicode `White_Space`
/// property.
pub open spec fn is_white(c: char) -> bool {
    ('\u{9}' <= c && c <= '\u{d}') || c == ' ' || c == '\u{85}' || c == '\u{a0}' || c == '\u{1680}'
        || ('\u{2000}' <= c && c <= '\u{200a}') || c == '\u{2028}' || c == '\u{2029}' || c == '\u{202f}'
        || c == '\u{205f}' || c == '\u{3000}'
}

pub fn white(c: char) -> (b: bool)
    ensures
        b == is_white(c),
{
    ('\u{9}' <= c && c <= '\u{d}') || c == ' ' || c == '\u{85}' || c == '\u{a0}' || c == '\u{1680}'
        || ('\u{2000}' <= c && c <= '\u{200a}') || c == '\u{2028}' || c == '\u{2029}' || c == '\u{202f}'
        || c == '\u{205f}' || c == '\u{3000}'
}

/// `s` without its leading whitespace.
pub open spec fn trim_start(s: Seq<char>) -> Seq<char>
    decreases s.len(),
{
    if s.len() > 0 && is_white(s[0]) {
        trim_start(s.drop_first())
    } else {
        s
    }
}

/// `s` without its trailing whitespace.
pub open spec fn trim_end(s: Seq<char>) -> Seq<char>
    decreases s.len(),
{
    if s.len() > 0 && is_white(s.last()) {
        trim_end(s.drop_last())
    } else {
        s
    }
}

/// `str::trim`: `s` without leading and trailing whitespace.
pub open spec fn trimmed(s: Seq<char>) -> Seq<char> {
    trim_end(trim_start(s))
}

/// The part of `s` before the first `c` (all of `s` when there is none):
/// what `split(c).next()` gives.
pub open spec fn before_char(s: Seq<char>, c: char) -> Seq<char>
    decreases s.len(),
{
    if s.len() == 0 {
        s
    } else if s[0] == c {
        Seq::empty()
    } else {
        seq![s[0]] + before_char(s.drop_first(), c)
    }
}

proof fn lemma_trim_start_at(s: Seq<char>, a: int, i: int, b: int)
    requires
        0 <= a <= i <= b <= s.len(),
        forall|k: int| a <= k < i ==> is_white(#[trigger] s[k]),
        i == b || !is_white(s[i]),
    ensures
        trim_start(s.subrange(a, b)) == s.subrange(i, b),
    decreases i - a,
{
    if a < i {
        assert(s.subrange(a, b).drop_first() =~= s.subrange(a + 1, b));
        lemma_trim_start_at(s, a + 1, i, b);
    }
}

proof fn lemma_trim_end_at(s: Seq<char>, a: int, j: int, b: int)
    requires
        0 <= a <= j <= b <= s.len(),
        forall|k: int| j <= k < b ==> is_white(#[trigger] s[k]),
        j == a || !is_white(s[j - 1]),
    ensures
        trim_end(s.subrange(a, b)) == s.subrange(a, j),
    decreases b - j,
{
    if j < b {
        assert(s.subrange(a, b).drop_last() =~= s.subrange(a, b - 1));
        lemma_trim_end_at(s, a, j, b - 1);
    }
}

proof fn lemma_before_char_at(s: Seq<char>, c: char, a: int, h: int, b: int)
    requires
        0 <= a <= h <= b <= s.len(),
        forall|k: int| a <= k < h ==> #[trigger] s[k] != c,
        h == b || s[h] == c,
    ensures
        before_char(s.subrange(a, b), c) == s.subrange(a, h),
    decreases h - a,
{
    if a < h {
        assert(s.subrange(a, b).drop_first() =~= s.subrange(a + 1, b));
        lemma_before_char_at(s, c, a + 1, h, b);
        assert(seq![s[a]] + s.subrange(a + 1, h) =~= s.subrange(a, h));
    } else if h < b {
        assert(s.subrange(a, b)[0] == c);
        assert(s.subrange(a, h) =~= Seq::<char>::empty());
    } else {
        assert(s.subrange(a, b) =~= Seq::<char>::empty());
    }
}

/// The segment `s[a..b]` cut before its first `c` and then trimmed, as
/// positions `(i, j)` with `s[i..j]` that segment.
pub fn trimmed_before(s: &Vec<char>, c: char, a: usize, b: usize) -> (r: (usize, usize))
    requires
        a <= b <= s@.len(),
    ensures
        a <= r.0 <= r.1 <= b,
        s@.subrange(r.0 as int, r.1 as int) == trimmed(before_char(s@.subrange(a as int, b as int), c)),
{
    let mut h = a;
    while h < b && s[h] != c
        invariant
            a <= h <= b <= s@.len(),
            forall|k: int| a <= k < h ==> #[trigger] s@[k] != c,
        decreases b - h,
    {
        h += 1;
    }
    proof {
        lemma_before_char_at(s@, c, a as int, h as int, b as int);
    }
    let mut i = a;
    while i < h && white(s[i])
        invariant
            a <= i <= h <= b <= s@.len(),
            forall|k: int| a <= k < i ==> is_white(#[trigger] s@[k]),
        decreases h - i,
    {
        i += 1;
    }
    proof {
        lemma_trim_start_at(s@, a as int, i as int, h as int);
    }
    let mut j = h;
    while j > i && white(s[j - 1])
        invariant
            a <= i <= j <= h <= b <= s@.len(),
            forall|k: int| j <= k < h ==> is_white(#[trigger] s@[k]),
        decreases j - i,
    {
        j -= 1;
    }
    proof {
        lemma_trim_end_at(s@, i as int, j as int, h as int);
        assert(s@.subrange(a as int, h as int).subrange(i - a, h - a) =~= s@.subrange(i as int, h as int));
        assert(s@.subrange(i as int, h as int).subrange(0, j - i) =~= s@.subrange(i as int, j as int));
    }
    (i, j)
}

} // verus!

verus! {

/// An ASCII digit.
pub open spec fn is_digit(c: char) -> bool {
    '0' <= c && c <= '9'
}

/// The number that a run of digits denotes.
pub open spec fn digits_value(d: Seq<char>) -> nat
    decreases d.len(),
{
    if d.len() == 0 {
        0
    } else {
        digits_value(d.drop_last()) * 10 + ((d.last() as int) - 48) as nat
    }
}

/// `s` without a leading `+`.
pub open spec fn unsigned_digits(s: Seq<char>) -> Seq<char> {
    if s.len() > 0 && s[0] == '+' {
        s.drop_first()
    } else {
        s
    }
}

/// Every character of `d` is an ASCII digit.
pub open spec fn all_digits(d: Seq<char>) -> bool {
    forall|k: int| 0 <= k < d.len() ==> is_digit(#[trigger] d[k])
}

/// `str::parse::<u32>`: an optional `+` followed by one or more ASCII
/// digits, denoting a number that fits in a `u32`.
pub open spec fn parsed_u32(s: Seq<char>) -> Option<u32> {
    let d = unsigned_digits(s);
    if d.len() > 0 && all_digits(d) && digits_value(d) <= u32::MAX {
        Some(digits_value(d) as u32)
    } else {
        None
    }
}

proof fn lemma_digits_value_grows(d: Seq<char>, i: int)
    requires
        0 <= i <= d.len(),
        forall|k: int| 0 <= k < d.len() ==> is_digit(#[trigger] d[k]),
    ensures
        digits_value(d.take(i)) <= digits_value(d),
    decreases d.len() - i,
{
    if i < d.len() {
        lemma_digits_value_grows(d, i + 1);
        assert(d.take(i + 1).drop_last() =~= d.take(i));
    } else {
        assert(d.take(i) =~= d);
    }
}

/// Parses `s[a..b]` as `str::parse::<u32>` does.
pub fn parse_u32_at(s: &Vec<char>, a: usize, b: usize) -> (r: Option<u32>)
    requires
        a <= b <= s@.len(),
    ensures
        r == parsed_u32(s@.subrange(a as int, b as int)),
{
    let ghost seg = s@.subrange(a as int, b as int);
    let start = if a < b && s[a] == '+' { a + 1 } else { a };
    let ghost d = unsigned_digits(seg);
    assert(d =~= s@.subrange(start as int, b as int));
    if start == b {
        return None;
    }
    let mut acc: u64 = 0;
    let mut i = start;
    while i < b
        invariant
            start <= i <= b <= s@.len(),
            d == s@.subrange(start as int, b as int),
            seg == s@.subrange(a as int, b as int),
            d == unsigned_digits(seg),
            forall|k: int| start <= k < i ==> is_digit(#[trigger] s@[k]),
            acc == digits_value(d.take(i - start)),
            acc <= u32::MAX,
        decreases b - i,
    {
        let c = s[i];
        if !('0' <= c && c <= '9') {
            assert(!is_digit(d[i - start]));
            assert(!all_digits(d));
            return None;
        }
        let v: u64 = (c as u32 - 48) as u64;
        assert(d.take(i - start + 1).drop_last() =~= d.take(i - start));
        let next = acc * 10 + v;
        if next > 0xffff_ffff {
            proof {
                if all_digits(d) {
                    lemma_digits_value_grows(d, i - start + 1);
                }
            }
            return None;
        }
        acc = next;
        i += 1;
    }
    assert(d.take(i - start) =~= d);
    assert(all_digits(d));
    Some(acc as u32)
}

} // verus!

verus! {

/// Truncating an already truncated string changes nothing.
pub proof fn law_truncate_idempotent(s: Seq<char>, max: nat)
    requires
        max >= 1,
    ensures
        truncated(truncated(s, max), max) == truncated(s, max),
{
}

/// A truncated string is the whole string, or a prefix of it followed by
/// the ellipsis, and never longer than the limit.
pub proof fn law_truncate_keeps_a_prefix(s: Seq<char>, max: nat)
    requires
        max >= 1,
    ensures
        truncated(s, max).len() <= max,
        truncated(s, max) == s || (truncated(s, max).last() == '…' && truncated(s, max).drop_last()
            == s.take(max - 1)),
{
}

} // verus!
