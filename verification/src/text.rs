//! Character-level helpers shared by the parsers of file names, header lines
//! and range requests.
//!
//! Strings are handled as sequences of `char`; every function states its
//! result over the view of its arguments.
use vstd::prelude::*;

verus! {

/// The characters of `s`, in order.
pub fn chars_of(s: &str) -> (v: Vec<char>)
    ensures
        v@ == s@,
{
    let mut v: Vec<char> = Vec::new();
    for c in it: s.chars()
        invariant
            v@ == it.seq().take(it.index() as int),
            it.seq() == s@,
    {
        v.push(c);
    }
    v
}

/// Builds a `String` from characters. Wraps `Iterator::collect` into a
/// `String`, which yields exactly the characters it is given, in order.
#[verifier::external_body]
pub(crate) fn string_of(chars: &[char]) -> (s: String)
    ensures
        s@ == chars@,
{
    chars.iter().collect()
}

/// Copies `v[from..to]`.
pub fn slice_chars(v: &[char], from: usize, to: usize) -> (r: Vec<char>)
    requires
        from <= to <= v@.len(),
    ensures
        r@ == v@.subrange(from as int, to as int),
{
    let mut r: Vec<char> = Vec::new();
    let mut i: usize = from;
    while i < to
        invariant
            from <= i <= to <= v@.len(),
            r@ == v@.subrange(from as int, i as int),
        decreases to - i,
    {
        r.push(v[i]);
        i += 1;
    }
    r
}

/// Whether two character slices hold the same sequence.
pub fn chars_eq(a: &[char], b: &[char]) -> (r: bool)
    ensures
        r == (a@ == b@),
{
    if a.len() != b.len() {
        return false;
    }
    let mut i: usize = 0;
    while i < a.len()
        invariant
            i <= a@.len(),
            a@.len() == b@.len(),
            forall|k: int| 0 <= k < i ==> a@[k] == b@[k],
        decreases a@.len() - i,
    {
        if a[i] != b[i] {
            return false;
        }
        i += 1;
    }
    assert(a@ =~= b@);
    true
}

/// Whether `a` spells the string `lit`.
pub fn chars_eq_str(a: &[char], lit: &str) -> (r: bool)
    ensures
        r == (a@ == lit@),
{
    let l = chars_of(lit);
    chars_eq(a, l.as_slice())
}

/// Whether two strings hold the same characters.
pub fn str_eq(a: &str, b: &str) -> (r: bool)
    ensures
        r == (a@ == b@),
{
    let x: String = a.to_owned();
    let y: String = b.to_owned();
    x == y
}

/// `s` begins with `prefix`.
pub open spec fn has_prefix<T>(s: Seq<T>, prefix: Seq<T>) -> bool {
    prefix.len() <= s.len() && s.subrange(0, prefix.len() as int) == prefix
}

/// `s` ends with `suffix`.
pub open spec fn has_suffix<T>(s: Seq<T>, suffix: Seq<T>) -> bool {
    suffix.len() <= s.len() && s.subrange(s.len() - suffix.len(), s.len() as int) == suffix
}

pub fn starts_with(s: &[char], prefix: &[char]) -> (r: bool)
    ensures
        r == has_prefix(s@, prefix@),
{
    if prefix.len() > s.len() {
        return false;
    }
    let mut i: usize = 0;
    while i < prefix.len()
        invariant
            i <= prefix@.len() <= s@.len(),
            forall|k: int| 0 <= k < i ==> s@[k] == prefix@[k],
        decreases prefix@.len() - i,
    {
        if s[i] != prefix[i] {
            assert(s@.subrange(0, prefix@.len() as int)[i as int] == s@[i as int]);
            return false;
        }
        i += 1;
    }
    assert(s@.subrange(0, prefix@.len() as int) =~= prefix@);
    true
}

pub fn ends_with(s: &[char], suffix: &[char]) -> (r: bool)
    ensures
        r == has_suffix(s@, suffix@),
{
    if suffix.len() > s.len() {
        return false;
    }
    let n: usize = s.len();
    let base: usize = n - suffix.len();
    let mut i: usize = 0;
    while i < suffix.len()
        invariant
            i <= suffix@.len() <= s@.len(),
            n == s@.len(),
            base == s@.len() - suffix@.len(),
            forall|k: int| 0 <= k < i ==> s@[base + k] == suffix@[k],
        decreases suffix@.len() - i,
    {
        if s[base + i] != suffix[i] {
            assert(s@.subrange(base as int, s@.len() as int)[i as int] == s@[base + i]);
            return false;
        }
        i += 1;
    }
    assert(s@.subrange(base as int, s@.len() as int) =~= suffix@);
    true
}

pub fn starts_with_str(s: &[char], prefix: &str) -> (r: bool)
    ensures
        r == has_prefix(s@, prefix@),
{
    let p = chars_of(prefix);
    starts_with(s, p.as_slice())
}

pub fn ends_with_str(s: &[char], suffix: &str) -> (r: bool)
    ensures
        r == has_suffix(s@, suffix@),
{
    let p = chars_of(suffix);
    ends_with(s, p.as_slice())
}

/// Index of the first `c` in `s` at or after `from`, if there is one.
pub open spec fn first_index_from(s: Seq<char>, c: char, from: int) -> Option<int>
    decreases s.len() - from,
{
    if from < 0 || from >= s.len() {
        None
    } else if s[from] == c {
        Some(from)
    } else {
        first_index_from(s, c, from + 1)
    }
}

/// Index of the first `c` in `s`, if there is one.
pub open spec fn first_index(s: Seq<char>, c: char) -> Option<int> {
    first_index_from(s, c, 0)
}

/// Index of the last `c` in `s`, if there is one.
pub open spec fn last_index(s: Seq<char>, c: char) -> Option<int>
    decreases s.len(),
{
    if s.len() == 0 {
        None
    } else if s.last() == c {
        Some(s.len() - 1)
    } else {
        last_index(s.drop_last(), c)
    }
}

pub proof fn lemma_first_index_from(s: Seq<char>, c: char, from: int)
    requires
        0 <= from,
    ensures
        match first_index_from(s, c, from) {
            Some(i) => from <= i < s.len() && s[i] == c && forall|k: int|
                from <= k < i ==> s[k] != c,
            None => forall|k: int| from <= k < s.len() ==> s[k] != c,
        },
    decreases s.len() - from,
{
    if from < s.len() && s[from] != c {
        lemma_first_index_from(s, c, from + 1);
    }
}

pub proof fn lemma_last_index(s: Seq<char>, c: char)
    ensures
        match last_index(s, c) {
            Some(i) => 0 <= i < s.len() && s[i] == c && forall|k: int|
                i < k < s.len() ==> s[k] != c,
            None => forall|k: int| 0 <= k < s.len() ==> s[k] != c,
        },
    decreases s.len(),
{
    if s.len() > 0 && s.last() != c {
        lemma_last_index(s.drop_last(), c);
        assert forall|k: int| 0 <= k < s.len() - 1 implies s.drop_last()[k] == s[k] by {}
    }
}

pub fn find_char_from(s: &[char], c: char, from: usize) -> (r: Option<usize>)
    ensures
        match r {
            Some(i) => first_index_from(s@, c, from as int) == Some(i as int),
            None => first_index_from(s@, c, from as int) is None,
        },
{
    let mut i: usize = from;
    while i < s.len()
        invariant
            from <= i,
            first_index_from(s@, c, from as int) == first_index_from(s@, c, i as int),
        decreases s@.len() - i,
    {
        if s[i] == c {
            return Some(i);
        }
        i += 1;
    }
    None
}

pub fn find_char(s: &[char], c: char) -> (r: Option<usize>)
    ensures
        match r {
            Some(i) => first_index(s@, c) == Some(i as int),
            None => first_index(s@, c) is None,
        },
{
    find_char_from(s, c, 0)
}

pub fn rfind_char(s: &[char], c: char) -> (r: Option<usize>)
    ensures
        match r {
            Some(i) => last_index(s@, c) == Some(i as int),
            None => last_index(s@, c) is None,
        },
{
    let mut i: usize = s.len();
    assert(s@.subrange(0, i as int) =~= s@);
    while i > 0
        invariant
            i <= s@.len(),
            last_index(s@, c) == last_index(s@.subrange(0, i as int), c),
        decreases i,
    {
        let ghost cur = s@.subrange(0, i as int);
        if s[i - 1] == c {
            assert(cur.last() == c);
            return Some(i - 1);
        }
        assert(cur.drop_last() =~= s@.subrange(0, i - 1));
        i -= 1;
    }
    assert(s@.subrange(0, 0).len() == 0);
    None
}

pub open spec fn is_digit(c: char) -> bool {
    '0' <= c && c <= '9'
}

pub open spec fn all_digits(s: Seq<char>) -> bool {
    forall|i: int| 0 <= i < s.len() ==> is_digit(#[trigger] s[i])
}

pub open spec fn digit_value(c: char) -> nat {
    (c as u32 - 48) as nat
}

/// The number that the decimal digits `s` spell (0 for the empty sequence).
pub open spec fn decimal_value(s: Seq<char>) -> nat
    decreases s.len(),
{
    if s.len() == 0 {
        0
    } else {
        decimal_value(s.drop_last()) * 10 + digit_value(s.last())
    }
}

/// What `str::parse` gives for an unsigned integer type with largest value
/// `max`: an optional `+`, then at least one decimal digit, and a value
/// that fits.
pub open spec fn unsigned_of(s: Seq<char>, max: nat) -> Option<nat> {
    if s.len() > 0 && s[0] == '+' {
        digits_of(s.subrange(1, s.len() as int), max)
    } else {
        digits_of(s, max)
    }
}

/// The value of a non-empty run of decimal digits, if it is at most `max`.
pub open spec fn digits_of(digits: Seq<char>, max: nat) -> Option<nat> {
    if digits.len() > 0 && all_digits(digits) && decimal_value(digits) <= max {
        Some(decimal_value(digits))
    } else {
        None
    }
}

pub proof fn lemma_decimal_value_monotone(s: Seq<char>, n: int)
    requires
        0 <= n <= s.len(),
    ensures
        decimal_value(s.subrange(0, n)) <= decimal_value(s),
    decreases s.len() - n,
{
    if n < s.len() {
        assert(s.subrange(0, n + 1).drop_last() =~= s.subrange(0, n));
        lemma_decimal_value_monotone(s, n + 1);
    } else {
        assert(s.subrange(0, n) =~= s);
    }
}

/// Reads a non-empty run of decimal digits whose value is at most `max`.
pub fn parse_digits(s: &[char], max: u64) -> (r: Option<u64>)
    ensures
        r.is_some() == digits_of(s@, max as nat).is_some(),
        r matches Some(v) ==> digits_of(s@, max as nat) == Some(v as nat),
{
    if s.len() == 0 {
        return None;
    }
    let mut acc: u64 = 0;
    let mut i: usize = 0;
    while i < s.len()
        invariant
            i <= s@.len(),
            all_digits(s@.subrange(0, i as int)),
            acc as nat == decimal_value(s@.subrange(0, i as int)),
            acc <= max,
        decreases s@.len() - i,
    {
        let c = s[i];
        let ghost next = s@.subrange(0, i + 1);
        proof {
            assert(next.drop_last() =~= s@.subrange(0, i as int));
            assert(next.last() == c);
        }
        if !('0' <= c && c <= '9') {
            assert(!is_digit(s@[i as int]));
            return None;
        }
        let d: u64 = (c as u32 - 48) as u64;
        proof {
            lemma_decimal_value_monotone(s@, i + 1);
        }
        if acc as u128 * 10 + d as u128 > max as u128 {
            assert(decimal_value(next) > max);
            return None;
        }
        acc = acc * 10 + d;
        assert(all_digits(next)) by {
            assert forall|k: int| 0 <= k < next.len() implies is_digit(#[trigger] next[k]) by {
                if k < i {
                    assert(next[k] == s@.subrange(0, i as int)[k]);
                }
            }
        }
        i += 1;
    }
    assert(s@.subrange(0, i as int) =~= s@);
    Some(acc)
}

/// Reads an unsigned decimal number no larger than `max`, with an optional
/// leading `+`.
pub fn parse_decimal(s: &[char], max: u64) -> (r: Option<u64>)
    ensures
        r.is_some() == unsigned_of(s@, max as nat).is_some(),
        r matches Some(v) ==> unsigned_of(s@, max as nat) == Some(v as nat),
{
    if s.len() > 0 && s[0] == '+' {
        let rest = vstd::slice::slice_subrange(s, 1, s.len());
        parse_digits(rest, max)
    } else {
        parse_digits(s, max)
    }
}

/// Whether `c` is white space in the sense of `char::is_whitespace`.
pub open spec fn is_space(c: char) -> bool {
    let u = c as u32;
    (0x09 <= u <= 0x0D) || u == 0x20 || u == 0x85 || u == 0xA0 || u == 0x1680 || (0x2000 <= u
        <= 0x200A) || u == 0x2028 || u == 0x2029 || u == 0x202F || u == 0x205F || u == 0x3000
}

/// The first index at or after `from` whose character is white space (if
/// `space` is true) or is not (if `space` is false); the length of `s`
/// where there is none.
pub open spec fn skip_while(s: Seq<char>, from: int, space: bool) -> int
    decreases s.len() - from,
{
    if from < 0 || from >= s.len() {
        s.len() as int
    } else if is_space(s[from]) != space {
        from
    } else {
        skip_while(s, from + 1, space)
    }
}

pub proof fn lemma_skip_while(s: Seq<char>, from: int, space: bool)
    requires
        0 <= from <= s.len(),
    ensures
        from <= skip_while(s, from, space) <= s.len(),
    decreases s.len() - from,
{
    if from < s.len() && is_space(s[from]) == space {
        lemma_skip_while(s, from + 1, space);
    }
}

pub fn is_space_char(c: char) -> (r: bool)
    ensures
        r == is_space(c),
{
    let u: u32 = c as u32;
    (0x09 <= u && u <= 0x0D) || u == 0x20 || u == 0x85 || u == 0xA0 || u == 0x1680 || (0x2000 <= u
        && u <= 0x200A) || u == 0x2028 || u == 0x2029 || u == 0x202F || u == 0x205F || u
        == 0x3000
}

pub fn skip_chars(s: &[char], from: usize, space: bool) -> (r: usize)
    requires
        from <= s@.len(),
    ensures
        r == skip_while(s@, from as int, space),
        from <= r <= s@.len(),
{
    let mut i: usize = from;
    while i < s.len() && is_space_char(s[i]) == space
        invariant
            from <= i <= s@.len(),
            skip_while(s@, from as int, space) == skip_while(s@, i as int, space),
        decreases s@.len() - i,
    {
        i += 1;
    }
    i
}

/// The end of `s` without trailing white space, no earlier than `lo`.
pub open spec fn trim_end(s: Seq<char>, lo: int) -> int
    decreases s.len(),
{
    if s.len() <= lo || s.len() == 0 {
        lo
    } else if !is_space(s.last()) {
        s.len() as int
    } else {
        trim_end(s.drop_last(), lo)
    }
}

pub proof fn lemma_trim_end(s: Seq<char>, lo: int)
    requires
        0 <= lo <= s.len(),
    ensures
        lo <= trim_end(s, lo) <= s.len(),
    decreases s.len(),
{
    if s.len() > lo && is_space(s.last()) {
        lemma_trim_end(s.drop_last(), lo);
    }
}

/// `s` without leading and trailing white space.
pub open spec fn trim(s: Seq<char>) -> Seq<char> {
    let lo = skip_while(s, 0, true);
    s.subrange(lo, trim_end(s, lo))
}

/// The bounds of `s[from..to]` without leading and trailing white space.
pub fn trim_range(s: &[char], from: usize, to: usize) -> (r: (usize, usize))
    requires
        from <= to <= s@.len(),
    ensures
        from <= r.0 <= r.1 <= to,
        s@.subrange(r.0 as int, r.1 as int) == trim(s@.subrange(from as int, to as int)),
{
    let ghost part = s@.subrange(from as int, to as int);
    let mut lo: usize = from;
    while lo < to && is_space_char(s[lo])
        invariant
            from <= lo <= to <= s@.len(),
            part == s@.subrange(from as int, to as int),
            skip_while(part, 0, true) == skip_while(part, lo - from, true),
        decreases to - lo,
    {
        assert(part[lo - from] == s@[lo as int]);
        lo += 1;
    }
    proof {
        if lo < to {
            assert(part[lo - from] == s@[lo as int]);
        }
        assert(skip_while(part, 0, true) == lo - from);
    }
    let mut hi: usize = to;
    assert(part.subrange(0, hi - from) =~= part);
    while hi > lo && is_space_char(s[hi - 1])
        invariant
            from <= lo <= hi <= to <= s@.len(),
            part == s@.subrange(from as int, to as int),
            trim_end(part, lo - from) == trim_end(part.subrange(0, hi - from), lo - from),
        decreases hi - lo,
    {
        let ghost cur = part.subrange(0, hi - from);
        assert(cur.last() == s@[hi - 1]);
        assert(cur.drop_last() =~= part.subrange(0, hi - 1 - from));
        hi -= 1;
    }
    proof {
        let cur = part.subrange(0, hi - from);
        if hi > lo {
            assert(cur.last() == s@[hi - 1]);
        }
        assert(trim_end(cur, lo - from) == hi - from);
        assert(s@.subrange(lo as int, hi as int) =~= part.subrange(lo - from, hi - from));
    }
    (lo, hi)
}

/// The decimal digit for a value below ten.
pub open spec fn digit_char(d: nat) -> char {
    seq!['0', '1', '2', '3', '4', '5', '6', '7', '8', '9'][d as int]
}

/// The decimal digits of `n`, without leading zeros.
pub open spec fn decimal_digits(n: nat) -> Seq<char>
    decreases n,
{
    if n < 10 {
        seq![digit_char(n)]
    } else {
        decimal_digits(n / 10).push(digit_char(n % 10))
    }
}

/// Reading the digits of a number gives the number back.
pub proof fn lemma_decimal_digits_value(n: nat)
    ensures
        decimal_digits(n).len() > 0,
        all_digits(decimal_digits(n)),
        decimal_value(decimal_digits(n)) == n,
    decreases n,
{
    let d = decimal_digits(n);
    if n < 10 {
        assert(d.drop_last() =~= Seq::<char>::empty());
        assert(decimal_value(d.drop_last()) == 0);
        assert(d.last() == digit_char(n));
        assert(digit_value(digit_char(n)) == n);
    } else {
        lemma_decimal_digits_value(n / 10);
        assert(d.drop_last() =~= decimal_digits(n / 10));
        assert(d.last() == digit_char(n % 10));
        assert(digit_value(digit_char(n % 10)) == n % 10);
        assert forall|i: int| 0 <= i < d.len() implies is_digit(#[trigger] d[i]) by {
            if i < d.len() - 1 {
                assert(d[i] == decimal_digits(n / 10)[i]);
            }
        }
    }
}

fn digit_of(d: u64) -> (c: char)
    requires
        d < 10,
    ensures
        c == digit_char(d as nat),
{
    if d == 0 {
        '0'
    } else if d == 1 {
        '1'
    } else if d == 2 {
        '2'
    } else if d == 3 {
        '3'
    } else if d == 4 {
        '4'
    } else if d == 5 {
        '5'
    } else if d == 6 {
        '6'
    } else if d == 7 {
        '7'
    } else if d == 8 {
        '8'
    } else {
        '9'
    }
}

/// The decimal digits of `n`.
pub fn decimal_chars(n: u64) -> (r: Vec<char>)
    ensures
        r@ == decimal_digits(n as nat),
    decreases n,
{
    if n < 10 {
        let mut r: Vec<char> = Vec::new();
        r.push(digit_of(n));
        assert(r@ =~= seq![digit_char(n as nat)]);
        r
    } else {
        let mut r = decimal_chars(n / 10);
        r.push(digit_of(n % 10));
        r
    }
}

/// `n` written in decimal.
pub fn decimal_string(n: u64) -> (s: String)
    ensures
        s@ == decimal_digits(n as nat),
{
    let digits = decimal_chars(n);
    string_of(digits.as_slice())
}

/// The value of a hexadecimal digit, if `c` is one.
pub open spec fn hex_digit_value(c: char) -> Option<nat> {
    if '0' <= c && c <= '9' {
        Some((c as u32 - 48) as nat)
    } else if 'a' <= c && c <= 'f' {
        Some((c as u32 - 87) as nat)
    } else if 'A' <= c && c <= 'F' {
        Some((c as u32 - 55) as nat)
    } else {
        None
    }
}

pub open spec fn all_hex_digits(s: Seq<char>) -> bool {
    forall|i: int| 0 <= i < s.len() ==> hex_digit_value(#[trigger] s[i]) is Some
}

/// The number that the hexadecimal digits `s` spell.
pub open spec fn hex_value(s: Seq<char>) -> nat
    decreases s.len(),
{
    if s.len() == 0 {
        0
    } else {
        hex_value(s.drop_last()) * 16 + match hex_digit_value(s.last()) {
            Some(d) => d,
            None => 0,
        }
    }
}

/// What `from_str_radix` with radix 16 gives for an unsigned integer type
/// with largest value `max`: an optional `+`, then at least one
/// hexadecimal digit, and a value that fits.
pub open spec fn hex_unsigned_of(s: Seq<char>, max: nat) -> Option<nat> {
    if s.len() > 0 && s[0] == '+' {
        hex_digits_of(s.subrange(1, s.len() as int), max)
    } else {
        hex_digits_of(s, max)
    }
}

/// The value of a non-empty run of hexadecimal digits, if it is at most
/// `max`.
pub open spec fn hex_digits_of(digits: Seq<char>, max: nat) -> Option<nat> {
    if digits.len() > 0 && all_hex_digits(digits) && hex_value(digits) <= max {
        Some(hex_value(digits))
    } else {
        None
    }
}

pub proof fn lemma_hex_value_monotone(s: Seq<char>, n: int)
    requires
        0 <= n <= s.len(),
    ensures
        hex_value(s.subrange(0, n)) <= hex_value(s),
    decreases s.len() - n,
{
    if n < s.len() {
        assert(s.subrange(0, n + 1).drop_last() =~= s.subrange(0, n));
        lemma_hex_value_monotone(s, n + 1);
    } else {
        assert(s.subrange(0, n) =~= s);
    }
}

fn hex_digit_of(c: char) -> (r: Option<u64>)
    ensures
        match r {
            Some(d) => hex_digit_value(c) == Some(d as nat) && d < 16,
            None => hex_digit_value(c) is None,
        },
{
    if '0' <= c && c <= '9' {
        Some((c as u32 - 48) as u64)
    } else if 'a' <= c && c <= 'f' {
        Some((c as u32 - 87) as u64)
    } else if 'A' <= c && c <= 'F' {
        Some((c as u32 - 55) as u64)
    } else {
        None
    }
}

/// Reads a non-empty run of hexadecimal digits whose value is at most
/// `max`.
pub fn parse_hex_digits(digits: &[char], max: u64) -> (r: Option<u64>)
    ensures
        r.is_some() == hex_digits_of(digits@, max as nat).is_some(),
        r matches Some(v) ==> hex_digits_of(digits@, max as nat) == Some(v as nat),
{
    if digits.len() == 0 {
        return None;
    }
    let mut acc: u64 = 0;
    let mut i: usize = 0;
    while i < digits.len()
        invariant
            i <= digits@.len(),
            all_hex_digits(digits@.subrange(0, i as int)),
            acc as nat == hex_value(digits@.subrange(0, i as int)),
            acc <= max,
        decreases digits@.len() - i,
    {
        let c = digits[i];
        let ghost next = digits@.subrange(0, i + 1);
        proof {
            assert(next.drop_last() =~= digits@.subrange(0, i as int));
            assert(next.last() == c);
            lemma_hex_value_monotone(digits@, i + 1);
        }
        let d: u64 = match hex_digit_of(c) {
            Some(d) => d,
            None => {
                assert(hex_digit_value(digits@[i as int]) is None);
                return None;
            },
        };
        if acc as u128 * 16 + d as u128 > max as u128 {
            assert(hex_value(next) > max);
            return None;
        }
        acc = acc * 16 + d;
        assert(all_hex_digits(next)) by {
            assert forall|k: int| 0 <= k < next.len() implies hex_digit_value(
                #[trigger] next[k],
            ) is Some by {
                if k < i {
                    assert(next[k] == digits@.subrange(0, i as int)[k]);
                }
            }
        }
        i += 1;
    }
    assert(digits@.subrange(0, i as int) =~= digits@);
    Some(acc)
}

/// Reads an unsigned hexadecimal number no larger than `max`, with an
/// optional leading `+`.
pub fn parse_hex(s: &[char], max: u64) -> (r: Option<u64>)
    ensures
        r.is_some() == hex_unsigned_of(s@, max as nat).is_some(),
        r matches Some(v) ==> hex_unsigned_of(s@, max as nat) == Some(v as nat),
{
    if s.len() > 0 && s[0] == '+' {
        parse_hex_digits(vstd::slice::slice_subrange(s, 1, s.len()), max)
    } else {
        parse_hex_digits(s, max)
    }
}

/// Where the next word of `s` at or after `pos` begins and ends: a word
/// is a run of characters that are not white space. Nothing where only
/// white space is left.
pub open spec fn next_word(s: Seq<char>, pos: int) -> Option<(int, int)> {
    let start = skip_while(s, pos, true);
    if start >= s.len() {
        None
    } else {
        Some((start, skip_while(s, start, false)))
    }
}

/// A word that is found is not empty and lies at or behind `pos`.
pub proof fn lemma_next_word(s: Seq<char>, pos: int)
    requires
        0 <= pos <= s.len(),
    ensures
        next_word(s, pos) matches Some((start, end)) ==> pos <= start < end <= s.len(),
{
    lemma_skip_while(s, pos, true);
    let start = skip_while(s, pos, true);
    if start < s.len() {
        lemma_skip_while_stops(s, pos, true);
        lemma_skip_while(s, start + 1, false);
    }
}

/// Where `skip_while` stops short of the end, the character there is of
/// the other kind.
pub proof fn lemma_skip_while_stops(s: Seq<char>, from: int, space: bool)
    requires
        0 <= from <= s.len(),
    ensures
        skip_while(s, from, space) < s.len() ==> is_space(s[skip_while(s, from, space)]) != space,
    decreases s.len() - from,
{
    if from < s.len() && is_space(s[from]) == space {
        lemma_skip_while_stops(s, from + 1, space);
    }
}

/// Finds the next word of `s` at or after `pos`.
pub fn find_word(s: &[char], pos: usize) -> (r: Option<(usize, usize)>)
    requires
        pos <= s@.len(),
    ensures
        match r {
            Some((start, end)) => next_word(s@, pos as int) == Some((start as int, end as int))
                && pos <= start < end <= s@.len(),
            None => next_word(s@, pos as int) is None,
        },
{
    proof {
        lemma_next_word(s@, pos as int);
    }
    let start = skip_chars(s, pos, true);
    if start >= s.len() {
        None
    } else {
        let end = skip_chars(s, start, false);
        Some((start, end))
    }
}

/// The lowercase form of `s`, as `str::to_lowercase` gives it.
pub uninterp spec fn lowercased(s: Seq<char>) -> Seq<char>;

/// The lowercase form of `s`. Wraps `str::to_lowercase`, whose result
/// depends on the characters of `s` alone.
#[verifier::external_body]
pub(crate) fn to_lowercase(s: &str) -> (r: String)
    ensures
        r@ == lowercased(s@),
{
    s.to_lowercase()
}

/// What stands behind the last dot of `path`; all of `path` where it has
/// no dot.
pub open spec fn extension_of(path: Seq<char>) -> Seq<char> {
    match last_index(path, '.') {
        Some(dot) => path.subrange(dot + 1, path.len() as int),
        None => path,
    }
}

/// Takes what stands behind the last dot of `path`.
pub fn extension(path: &[char]) -> (r: &[char])
    ensures
        r@ == extension_of(path@),
{
    let n: usize = path.len();
    match rfind_char(path, '.') {
        Some(dot) => {
            proof {
                lemma_last_index(path@, '.');
            }
            vstd::slice::slice_subrange(path, dot + 1, n)
        },
        None => {
            assert(path@.subrange(0, n as int) =~= path@);
            vstd::slice::slice_subrange(path, 0, n)
        },
    }
}

/// `needle` occurs in `s` at index `i`.
pub open spec fn sub_at(s: Seq<char>, needle: Seq<char>, i: int) -> bool {
    0 <= i && i + needle.len() <= s.len() && s.subrange(i, i + needle.len()) == needle
}

/// `needle` occurs somewhere in `s`; the empty sequence occurs in every
/// sequence.
pub open spec fn has_sub(s: Seq<char>, needle: Seq<char>) -> bool {
    exists|i: int| sub_at(s, needle, i)
}

/// Whether `needle` occurs in `s` at index `i`.
pub fn occurs_at(s: &[char], needle: &[char], i: usize) -> (r: bool)
    ensures
        r == sub_at(s@, needle@, i as int),
{
    let n: usize = needle.len();
    let h: usize = s.len();
    if n > h || i > h - n {
        return false;
    }
    let mut k: usize = 0;
    while k < n
        invariant
            k <= n,
            n == needle@.len(),
            h == s@.len(),
            i + n <= h,
            forall|j: int| 0 <= j < k ==> s@[i + j] == needle@[j],
        decreases n - k,
    {
        if s[i + k] != needle[k] {
            assert(s@.subrange(i as int, i + n)[k as int] == s@[i + k]);
            return false;
        }
        k += 1;
    }
    assert(s@.subrange(i as int, i + n) =~= needle@);
    true
}

/// Whether `needle` occurs somewhere in `s`.
pub fn contains(s: &[char], needle: &[char]) -> (r: bool)
    ensures
        r == has_sub(s@, needle@),
{
    let n: usize = needle.len();
    let h: usize = s.len();
    if n > h {
        return false;
    }
    let last: usize = h - n;
    let mut i: usize = 0;
    while i <= last
        invariant
            i <= last + 1,
            last == h - n,
            n == needle@.len(),
            h == s@.len(),
            forall|j: int| 0 <= j < i ==> !sub_at(s@, needle@, j),
        decreases last + 1 - i,
    {
        if occurs_at(s, needle, i) {
            return true;
        }
        if i == last {
            return false;
        }
        i += 1;
    }
    false
}

/// Whether the string `needle` occurs somewhere in `s`.
pub fn contains_str(s: &[char], needle: &str) -> (r: bool)
    ensures
        r == has_sub(s@, needle@),
{
    let n = chars_of(needle);
    contains(s, n.as_slice())
}

/// Whether every character of `s` is a hexadecimal digit.
pub fn is_all_hex(s: &[char]) -> (r: bool)
    ensures
        r == all_hex_digits(s@),
{
    let mut i: usize = 0;
    while i < s.len()
        invariant
            i <= s@.len(),
            forall|k: int| 0 <= k < i ==> hex_digit_value(#[trigger] s@[k]) is Some,
        decreases s@.len() - i,
    {
        if hex_digit_of(s[i]).is_none() {
            return false;
        }
        i += 1;
    }
    true
}

/// Where no element of `s` from `from` on is `c`, none is found.
pub proof fn lemma_first_index_none(s: Seq<char>, c: char, from: int)
    requires
        0 <= from,
        forall|k: int| from <= k < s.len() ==> s[k] != c,
    ensures
        first_index_from(s, c, from) is None,
{
    lemma_first_index_from(s, c, from);
}

/// The first `c` at or after `from` is found where it stands.
pub proof fn lemma_first_index_at(s: Seq<char>, c: char, from: int, i: int)
    requires
        0 <= from <= i < s.len(),
        s[i] == c,
        forall|k: int| from <= k < i ==> s[k] != c,
    ensures
        first_index_from(s, c, from) == Some(i),
{
    lemma_first_index_from(s, c, from);
}

/// A text that neither begins nor ends with white space is its own
/// trimmed form; so is the empty text.
pub proof fn lemma_trim_identity(s: Seq<char>)
    requires
        s.len() > 0 ==> !is_space(s[0]) && !is_space(s.last()),
    ensures
        trim(s) == s,
{
    assert(s.subrange(0, s.len() as int) =~= s);
}

/// Decimal digits are no white space and none of the marks of a range.
pub proof fn lemma_digits_are_plain(n: nat)
    ensures
        forall|k: int|
            0 <= k < decimal_digits(n).len() ==> {
                let c = #[trigger] decimal_digits(n)[k];
                is_digit(c) && !is_space(c) && c != ',' && c != '-' && c != '+'
            },
{
    lemma_decimal_digits_value(n);
    assert forall|k: int| 0 <= k < decimal_digits(n).len() implies {
        let c = #[trigger] decimal_digits(n)[k];
        is_digit(c) && !is_space(c) && c != ',' && c != '-' && c != '+'
    } by {
        assert(is_digit(decimal_digits(n)[k]));
    }
}

/// Reading the decimal form of a number gives the number back.
pub proof fn lemma_unsigned_of_digits(n: nat, max: nat)
    requires
        n <= max,
    ensures
        unsigned_of(decimal_digits(n), max) == Some(n),
{
    lemma_decimal_digits_value(n);
    lemma_digits_are_plain(n);
    assert(decimal_digits(n)[0] != '+');
}

/// The number of bytes of the UTF-8 form of `c`.
pub open spec fn utf8_width(c: char) -> nat {
    let u = c as u32;
    if u < 0x80 {
        1
    } else if u < 0x800 {
        2
    } else if u < 0x10000 {
        3
    } else {
        4
    }
}

/// The number of bytes of the UTF-8 form of `s`.
pub open spec fn utf8_len(s: Seq<char>) -> nat
    decreases s.len(),
{
    if s.len() == 0 {
        0
    } else {
        utf8_len(s.drop_last()) + utf8_width(s.last())
    }
}

/// How many characters of `s` from `from` on make up its next `left`
/// bytes in UTF-8, counted from the start of `s`: all where fewer bytes
/// are left, nothing where the last of the bytes lies within a
/// character.
pub open spec fn byte_cut(s: Seq<char>, from: int, left: nat) -> Option<int>
    decreases s.len() - from,
{
    if from < 0 || from >= s.len() {
        Some(s.len() as int)
    } else if left == 0 {
        Some(from)
    } else if utf8_width(s[from]) > left {
        None
    } else {
        byte_cut(s, from + 1, (left - utf8_width(s[from])) as nat)
    }
}

/// Finds how many characters of `s` make up its first `limit` bytes in
/// UTF-8.
pub fn cut_at_bytes(s: &[char], limit: usize) -> (r: Option<usize>)
    ensures
        match r {
            Some(n) => byte_cut(s@, 0, limit as nat) == Some(n as int) && n <= s@.len(),
            None => byte_cut(s@, 0, limit as nat) is None,
        },
{
    let mut left: usize = limit;
    let mut i: usize = 0;
    while i < s.len()
        invariant
            i <= s@.len(),
            byte_cut(s@, 0, limit as nat) == byte_cut(s@, i as int, left as nat),
        decreases s@.len() - i,
    {
        if left == 0 {
            return Some(i);
        }
        let u: u32 = s[i] as u32;
        let width: usize = if u < 0x80 {
            1
        } else if u < 0x800 {
            2
        } else if u < 0x10000 {
            3
        } else {
            4
        };
        if width > left {
            return None;
        }
        left = left - width;
        i += 1;
    }
    Some(i)
}

/// The number of bytes of the UTF-8 form of `s`.
pub fn byte_length(s: &[char]) -> (n: u128)
    ensures
        n == utf8_len(s@),
{
    let mut n: u128 = 0;
    let mut i: usize = 0;
    assert(s@.subrange(0, 0) =~= Seq::<char>::empty());
    while i < s.len()
        invariant
            i <= s@.len(),
            n == utf8_len(s@.subrange(0, i as int)),
            n <= 4 * i,
        decreases s@.len() - i,
    {
        let ghost next = s@.subrange(0, i + 1);
        assert(next.drop_last() =~= s@.subrange(0, i as int));
        assert(next.last() == s@[i as int]);
        let u: u32 = s[i] as u32;
        n += if u < 0x80 {
            1
        } else if u < 0x800 {
            2
        } else if u < 0x10000 {
            3
        } else {
            4
        };
        i += 1;
    }
    assert(s@.subrange(0, i as int) =~= s@);
    n
}

/// Every character takes at least one byte and at most four.
pub proof fn lemma_utf8_len_bounds(s: Seq<char>)
    ensures
        s.len() <= utf8_len(s) <= 4 * s.len(),
    decreases s.len(),
{
    if s.len() > 0 {
        lemma_utf8_len_bounds(s.drop_last());
    }
}


} // verus!
