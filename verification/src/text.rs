//! Character-level text utilities used by the panel page parsers and topic builders.
//!
//! Texts are handled as `Vec<char>` / `&[char]`, whose view is the same `Seq<char>`
//! as the view of the `String` they come from.

use vstd::prelude::*;

verus! {

broadcast use vstd::string::group_string_axioms;

// ---------------------------------------------------------------------------
// Conversions between strings and characters
// ---------------------------------------------------------------------------

/// The characters of a string slice, in order.
pub fn to_chars(s: &str) -> (v: Vec<char>)
    ensures
        v@ == s@,
{
    let mut v: Vec<char> = Vec::new();
    for c in it: s.chars()
        invariant
            v@ == it.seq().take(it.index()),
    {
        v.push(c);
    }
    v
}

/// Collects characters into a `String` (std's `FromIterator<char>` for `String`).
/// Claimed: the string holds exactly the given characters, in order.
#[verifier::external_body]
pub(crate) fn from_chars(v: &[char]) -> (s: String)
    ensures
        s@ == v@,
{
    v.iter().collect()
}

/// The whitespace test of `char::is_whitespace`: the Unicode `White_Space` property.
pub open spec fn is_ws(c: char) -> bool {
    let u = c as u32;
    ||| 0x09 <= u <= 0x0d
    ||| u == 0x20
    ||| u == 0x85
    ||| u == 0xa0
    ||| u == 0x1680
    ||| 0x2000 <= u <= 0x200a
    ||| u == 0x2028
    ||| u == 0x2029
    ||| u == 0x202f
    ||| u == 0x205f
    ||| u == 0x3000
}

pub fn is_whitespace(c: char) -> (b: bool)
    ensures
        b == is_ws(c),
{
    let u = c as u32;
    (0x09 <= u && u <= 0x0d) || u == 0x20 || u == 0x85 || u == 0xa0 || u == 0x1680 || (0x2000
        <= u && u <= 0x200a) || u == 0x2028 || u == 0x2029 || u == 0x202f || u == 0x205f || u
        == 0x3000
}

/// An ASCII decimal digit.
pub open spec fn is_digit(c: char) -> bool {
    48 <= c as u32 <= 57
}

/// The value of an ASCII decimal digit.
pub open spec fn digit_value(c: char) -> nat {
    (c as u32 - 48) as nat
}

// ---------------------------------------------------------------------------
// Trimming
// ---------------------------------------------------------------------------

/// `s` without its leading whitespace.
pub open spec fn trim_start(s: Seq<char>) -> Seq<char>
    decreases s.len(),
{
    if s.len() > 0 && is_ws(s[0]) {
        trim_start(s.drop_first())
    } else {
        s
    }
}

/// `s` without its trailing whitespace.
pub open spec fn trim_end(s: Seq<char>) -> Seq<char>
    decreases s.len(),
{
    if s.len() > 0 && is_ws(s.last()) {
        trim_end(s.drop_last())
    } else {
        s
    }
}

/// `s` without leading and trailing whitespace (`str::trim`).
pub open spec fn trim(s: Seq<char>) -> Seq<char> {
    trim_end(trim_start(s))
}

/// Index of the first character of `s` that is not whitespace (or its length).
pub fn trim_start_index(s: &[char]) -> (i: usize)
    ensures
        i <= s@.len(),
        trim_start(s@) == s@.skip(i as int),
{
    let mut i: usize = 0;
    assert(s@.skip(0) =~= s@);
    while i < s.len() && is_whitespace(s[i])
        invariant
            i <= s@.len(),
            trim_start(s@) == trim_start(s@.skip(i as int)),
        decreases s@.len() - i,
    {
        assert(s@.skip(i as int).drop_first() =~= s@.skip(i + 1));
        i = i + 1;
    }
    i
}

/// End index (exclusive) of `s[..hi]` after removing its trailing whitespace.
fn trim_end_index(s: &[char], lo: usize) -> (j: usize)
    requires
        lo <= s@.len(),
    ensures
        lo <= j <= s@.len(),
        trim_end(s@.subrange(lo as int, s@.len() as int)) == s@.subrange(lo as int, j as int),
{
    let mut j: usize = s.len();
    while j > lo && is_whitespace(s[j - 1])
        invariant
            lo <= j <= s@.len(),
            trim_end(s@.subrange(lo as int, s@.len() as int)) == trim_end(
                s@.subrange(lo as int, j as int),
            ),
        decreases j,
    {
        assert(s@.subrange(lo as int, j as int).drop_last() =~= s@.subrange(
            lo as int,
            j - 1,
        ));
        j = j - 1;
    }
    j
}

/// `str::trim` on characters.
pub fn trim_chars(s: &[char]) -> (r: Vec<char>)
    ensures
        r@ == trim(s@),
{
    let i = trim_start_index(s);
    let j = trim_end_index(s, i);
    assert(s@.skip(i as int) =~= s@.subrange(i as int, s@.len() as int));
    vstd::slice::slice_to_vec(&s[i..j])
}

/// `str::trim` on a string.
pub fn trim_str(s: &str) -> (r: String)
    ensures
        r@ == trim(s@),
{
    let v = to_chars(s);
    let t = trim_chars(v.as_slice());
    from_chars(t.as_slice())
}


// ---------------------------------------------------------------------------
// Searching
// ---------------------------------------------------------------------------

/// `p` occurs in `s` starting at index `i`.
pub open spec fn occurs_at(s: Seq<char>, p: Seq<char>, i: int) -> bool {
    0 <= i && i + p.len() <= s.len() && s.subrange(i, i + p.len()) == p
}

/// The first index at or after `i` where `p` occurs in `s`.
pub open spec fn find_from(s: Seq<char>, p: Seq<char>, i: nat) -> Option<nat>
    decreases s.len() - i,
{
    if i + p.len() > s.len() {
        None
    } else if occurs_at(s, p, i as int) {
        Some(i)
    } else {
        proof {
            if p.len() == 0 {
                assert(s.subrange(i as int, i as int) =~= p);
            }
        }
        find_from(s, p, i + 1)
    }
}

/// The first index where `p` occurs in `s` (`str::find`).
pub open spec fn find(s: Seq<char>, p: Seq<char>) -> Option<nat> {
    find_from(s, p, 0)
}

/// `s` contains `p` (`str::contains`).
pub open spec fn contains(s: Seq<char>, p: Seq<char>) -> bool {
    find(s, p) is Some
}

/// `find_from` finds the first occurrence at or after `i`.
pub proof fn lemma_find_from(s: Seq<char>, p: Seq<char>, i: nat)
    ensures
        match find_from(s, p, i) {
            Some(k) => i <= k && occurs_at(s, p, k as int) && forall|j: int|
                i <= j < k ==> !occurs_at(s, p, j),
            None => forall|j: int| i <= j ==> !occurs_at(s, p, j),
        },
    decreases s.len() - i,
{
    if i + p.len() > s.len() {
    } else if occurs_at(s, p, i as int) {
    } else {
        if p.len() == 0 {
            assert(s.subrange(i as int, i as int) =~= p);
        }
        lemma_find_from(s, p, i + 1);
    }
}

/// `p` occurs in `s` at `i`, checked character by character.
fn matches_at(s: &[char], p: &[char], i: usize) -> (b: bool)
    ensures
        b == occurs_at(s@, p@, i as int),
{
    if i > s.len() || p.len() > s.len() - i {
        return false;
    }
    let mut k: usize = 0;
    let n = s.len();
    while k < p.len()
        invariant
            n == s@.len(),
            i + p@.len() <= s@.len(),
            k <= p@.len(),
            forall|m: int| 0 <= m < k ==> s@[i + m] == p@[m],
        decreases p@.len() - k,
    {
        if s[i + k] != p[k] {
            assert(s@.subrange(i as int, i + p@.len())[k as int] != p@[k as int]);
            return false;
        }
        k = k + 1;
    }
    assert(s@.subrange(i as int, i + p@.len()) =~= p@);
    true
}

/// `str::find` starting at index `start`.
pub fn find_chars_from(s: &[char], p: &[char], start: usize) -> (r: Option<usize>)
    ensures
        match r {
            Some(k) => find_from(s@, p@, start as nat) == Some(k as nat),
            None => find_from(s@, p@, start as nat) is None,
        },
{
    let mut i = start;
    let n = s.len();
    while i <= s.len() && p.len() <= s.len() - i
        invariant
            n == s@.len(),
            start <= i,
            find_from(s@, p@, start as nat) == find_from(s@, p@, i as nat),
        decreases s@.len() + 1 - i,
    {
        if matches_at(s, p, i) {
            return Some(i);
        }
        proof {
            if p@.len() == 0 {
                assert(s@.subrange(i as int, i as int) =~= p@);
            }
        }
        i = i + 1;
    }
    None
}

/// `str::find`.
pub fn find_chars(s: &[char], p: &[char]) -> (r: Option<usize>)
    ensures
        match r {
            Some(k) => find(s@, p@) == Some(k as nat),
            None => find(s@, p@) is None,
        },
{
    find_chars_from(s, p, 0)
}

/// `str::contains`.
pub fn contains_chars(s: &[char], p: &[char]) -> (b: bool)
    ensures
        b == contains(s@, p@),
{
    find_chars(s, p).is_some()
}

/// `str::contains` with a literal pattern.
pub fn contains_str(s: &[char], p: &str) -> (b: bool)
    ensures
        b == contains(s@, p@),
{
    let pv = to_chars(p);
    contains_chars(s, pv.as_slice())
}

/// `s` starts with `p`.
pub open spec fn starts_with(s: Seq<char>, p: Seq<char>) -> bool {
    p.len() <= s.len() && s.take(p.len() as int) == p
}

/// `s` ends with `p`.
pub open spec fn ends_with(s: Seq<char>, p: Seq<char>) -> bool {
    p.len() <= s.len() && s.skip(s.len() - p.len()) == p
}

/// `str::strip_prefix`.
pub open spec fn strip_prefix(s: Seq<char>, p: Seq<char>) -> Option<Seq<char>> {
    if starts_with(s, p) {
        Some(s.skip(p.len() as int))
    } else {
        None
    }
}

/// `str::strip_suffix`.
pub open spec fn strip_suffix(s: Seq<char>, p: Seq<char>) -> Option<Seq<char>> {
    if ends_with(s, p) {
        Some(s.take(s.len() - p.len()))
    } else {
        None
    }
}

/// `str::strip_prefix`.
pub fn strip_prefix_chars(s: &[char], p: &[char]) -> (r: Option<Vec<char>>)
    ensures
        match r {
            Some(v) => strip_prefix(s@, p@) == Some(v@),
            None => strip_prefix(s@, p@) is None,
        },
{
    if p.len() > s.len() {
        return None;
    }
    if matches_at(s, p, 0) {
        assert(s@.subrange(0, p@.len() as int) =~= s@.take(p@.len() as int));
        let rest = vstd::slice::slice_to_vec(&s[p.len()..s.len()]);
        assert(rest@ =~= s@.skip(p@.len() as int));
        Some(rest)
    } else {
        assert(s@.subrange(0, p@.len() as int) =~= s@.take(p@.len() as int));
        None
    }
}

/// `str::strip_prefix` with a literal pattern.
pub fn strip_prefix_str(s: &[char], p: &str) -> (r: Option<Vec<char>>)
    ensures
        match r {
            Some(v) => strip_prefix(s@, p@) == Some(v@),
            None => strip_prefix(s@, p@) is None,
        },
{
    let pv = to_chars(p);
    strip_prefix_chars(s, pv.as_slice())
}

/// `str::strip_suffix` with a literal pattern.
pub fn strip_suffix_str(s: &[char], p: &str) -> (r: Option<Vec<char>>)
    ensures
        match r {
            Some(v) => strip_suffix(s@, p@) == Some(v@),
            None => strip_suffix(s@, p@) is None,
        },
{
    let pv = to_chars(p);
    if pv.len() > s.len() {
        return None;
    }
    let at = s.len() - pv.len();
    if matches_at(s, pv.as_slice(), at) {
        assert(s@.subrange(at as int, s@.len() as int) =~= s@.skip(at as int));
        let rest = vstd::slice::slice_to_vec(&s[0..at]);
        assert(rest@ =~= s@.take(at as int));
        Some(rest)
    } else {
        assert(s@.subrange(at as int, s@.len() as int) =~= s@.skip(at as int));
        None
    }
}

/// `str::split_once` at the first occurrence of `c`.
pub open spec fn split_once(s: Seq<char>, c: char) -> Option<(Seq<char>, Seq<char>)> {
    match find(s, seq![c]) {
        Some(k) => Some((s.take(k as int), s.skip(k + 1 as int))),
        None => None,
    }
}

/// `str::split_once` with a character pattern.
pub fn split_once_chars(s: &[char], c: char) -> (r: Option<(Vec<char>, Vec<char>)>)
    ensures
        match r {
            Some((a, b)) => split_once(s@, c) == Some((a@, b@)),
            None => split_once(s@, c) is None,
        },
{
    let mut pat: Vec<char> = Vec::new();
    pat.push(c);
    assert(pat@ =~= seq![c]);
    let n = s.len();
    match find_chars(s, pat.as_slice()) {
        Some(k) => {
            proof {
                lemma_find_from(s@, seq![c], 0);
            }
            assert(k < s@.len());
            let a = vstd::slice::slice_to_vec(&s[0..k]);
            let b = vstd::slice::slice_to_vec(&s[k + 1..s.len()]);
            assert(a@ =~= s@.take(k as int));
            assert(b@ =~= s@.skip(k + 1));
            Some((a, b))
        },
        None => None,
    }
}

// ---------------------------------------------------------------------------
// Decimal numbers
// ---------------------------------------------------------------------------

/// Why a text is not a `u32` (the kinds `str::parse::<u32>` reports).
#[derive(Clone, Copy, Debug, PartialEq, Eq, Structural)]
pub enum IntErrorKind {
    Empty,
    InvalidDigit,
    PosOverflow,
}

/// Left-to-right scan of a digit string, as `str::parse` does it: the first
/// non-digit gives `InvalidDigit`, the first digit that makes the value exceed
/// `u32::MAX` gives `PosOverflow`.
pub open spec fn scan_digits(d: Seq<char>) -> Result<nat, IntErrorKind>
    decreases d.len(),
{
    if d.len() == 0 {
        Ok(0)
    } else {
        match scan_digits(d.drop_last()) {
            Err(e) => Err(e),
            Ok(v) => if !is_digit(d.last()) {
                Err(IntErrorKind::InvalidDigit)
            } else if v * 10 + digit_value(d.last()) > u32::MAX {
                Err(IntErrorKind::PosOverflow)
            } else {
                Ok(v * 10 + digit_value(d.last()))
            },
        }
    }
}

/// `str::parse::<u32>`: an optional `+`, then at least one decimal digit.
pub open spec fn parse_u32(s: Seq<char>) -> Result<u32, IntErrorKind> {
    if s.len() == 0 {
        Err(IntErrorKind::Empty)
    } else if s.len() == 1 && (s[0] == '+' || s[0] == '-') {
        Err(IntErrorKind::InvalidDigit)
    } else {
        let d = if s[0] == '+' {
            s.drop_first()
        } else {
            s
        };
        match scan_digits(d) {
            Ok(v) => Ok(v as u32),
            Err(e) => Err(e),
        }
    }
}

/// `str::parse::<u32>` on characters.
pub fn parse_u32_chars(s: &[char]) -> (r: Result<u32, IntErrorKind>)
    ensures
        r == parse_u32(s@),
{
    let n = s.len();
    if n == 0 {
        return Err(IntErrorKind::Empty);
    }
    if n == 1 && (s[0] == '+' || s[0] == '-') {
        return Err(IntErrorKind::InvalidDigit);
    }
    let start: usize = if s[0] == '+' {
        1
    } else {
        0
    };
    let ghost d = if s@[0] == '+' {
        s@.drop_first()
    } else {
        s@
    };
    assert(d =~= s@.skip(start as int));
    let mut acc: u64 = 0;
    let mut i: usize = start;
    while i < n
        invariant
            n == s@.len(),
            start <= i <= n,
            d == s@.skip(start as int),
            n >= 1,
            !(n == 1 && (s@[0] == '+' || s@[0] == '-')),
            d == (if s@[0] == '+' {
                s@.drop_first()
            } else {
                s@
            }),
            scan_digits(d.take(i - start)) == Ok::<nat, IntErrorKind>(acc as nat),
            acc <= u32::MAX,
        decreases n - i,
    {
        let c = s[i];
        assert(d.take(i + 1 - start).drop_last() =~= d.take(i - start));
        assert(d.take(i + 1 - start).last() == c);
        let u = c as u32;
        if !(48 <= u && u <= 57) {
            proof {
                assert(!is_digit(c));
                assert(scan_digits(d.take(i + 1 - start)) == Err::<nat, IntErrorKind>(
                    IntErrorKind::InvalidDigit,
                ));
                lemma_scan_prefix_err(d, (i + 1 - start) as nat);
            }
            return Err(IntErrorKind::InvalidDigit);
        }
        let dv = (u - 48) as u64;
        let next = acc * 10 + dv;
        if next > 0xffff_ffff {
            proof {
                assert(digit_value(c) == dv);
                assert(scan_digits(d.take(i + 1 - start)) == Err::<nat, IntErrorKind>(
                    IntErrorKind::PosOverflow,
                ));
                lemma_scan_prefix_err(d, (i + 1 - start) as nat);
            }
            return Err(IntErrorKind::PosOverflow);
        }
        acc = next;
        i = i + 1;
    }
    assert(d.take(n - start) =~= d);
    Ok(acc as u32)
}

/// Once a prefix fails to scan, the whole digit string fails the same way.
proof fn lemma_scan_prefix_err(d: Seq<char>, k: nat)
    requires
        k <= d.len(),
        scan_digits(d.take(k as int)) is Err,
    ensures
        scan_digits(d) == scan_digits(d.take(k as int)),
    decreases d.len() - k,
{
    if k < d.len() {
        assert(d.take(k + 1 as int).drop_last() =~= d.take(k as int));
        lemma_scan_prefix_err(d, k + 1);
    } else {
        assert(d.take(k as int) =~= d);
    }
}

/// `str::parse::<u32>` on a string.
pub fn parse_u32_str(s: &str) -> (r: Result<u32, IntErrorKind>)
    ensures
        r == parse_u32(s@),
{
    let v = to_chars(s);
    parse_u32_chars(v.as_slice())
}

/// The character of a decimal digit.
pub open spec fn digit_char(d: nat) -> char {
    if d == 0 {
        '0'
    } else if d == 1 {
        '1'
    } else if d == 2 {
        '2'
    } else if d == 3 {
        '3'
    } else if d == 4 {
        '4'
    } else if d == 5 {
        '5'
    } else if d == 6 {
        '6'
    } else if d == 7 {
        '7'
    } else if d == 8 {
        '8'
    } else {
        '9'
    }
}

/// The decimal representation of `n` (`u32::to_string`): no sign, no leading zeros.
pub open spec fn decimal(n: nat) -> Seq<char>
    decreases n,
{
    if n < 10 {
        seq![digit_char(n)]
    } else {
        decimal(n / 10).push(digit_char(n % 10))
    }
}

fn digit_to_char(d: u32) -> (c: char)
    requires
        d < 10,
    ensures
        c == digit_char(d as nat),
{
    if d == 0 {
        '0'
    } else if d == 1 {
        '1'
    } else if d == 2 {
        '2'
    } else if d == 3 {
        '3'
    } else if d == 4 {
        '4'
    } else if d == 5 {
        '5'
    } else if d == 6 {
        '6'
    } else if d == 7 {
        '7'
    } else if d == 8 {
        '8'
    } else {
        '9'
    }
}

/// Appends the decimal representation of `n` to `out`.
pub fn push_decimal(out: &mut Vec<char>, n: u32)
    ensures
        final(out)@ == old(out)@ + decimal(n as nat),
    decreases n,
{
    if n < 10 {
        out.push(digit_to_char(n));
        assert(old(out)@ + decimal(n as nat) =~= old(out)@.push(digit_char(n as nat)));
    } else {
        push_decimal(out, n / 10);
        out.push(digit_to_char(n % 10));
        assert(old(out)@ + decimal(n as nat) =~= old(out)@ + decimal((n / 10) as nat) + seq![
            digit_char((n % 10) as nat),
        ]);
    }
}

/// `u32::to_string`.
pub fn u32_to_string(n: u32) -> (s: String)
    ensures
        s@ == decimal(n as nat),
{
    let mut v: Vec<char> = Vec::new();
    push_decimal(&mut v, n);
    assert(v@ =~= decimal(n as nat));
    from_chars(v.as_slice())
}

proof fn lemma_digit_char(d: nat)
    requires
        d < 10,
    ensures
        is_digit(digit_char(d)),
        digit_value(digit_char(d)) == d,
{
}

proof fn lemma_decimal_shape(n: nat)
    ensures
        decimal(n).len() >= 1,
        decimal(n)[0] != '+' && decimal(n)[0] != '-',
        n < 10 ==> decimal(n).len() == 1,
    decreases n,
{
    if n >= 10 {
        lemma_decimal_shape(n / 10);
    } else {
        lemma_digit_char(n);
    }
}

proof fn lemma_scan_decimal(n: nat)
    requires
        n <= u32::MAX,
    ensures
        scan_digits(decimal(n)) == Ok::<nat, IntErrorKind>(n),
    decreases n,
{
    if n < 10 {
        lemma_digit_char(n);
        assert(decimal(n).drop_last() =~= Seq::<char>::empty());
        assert(scan_digits(Seq::<char>::empty()) == Ok::<nat, IntErrorKind>(0));
    } else {
        lemma_scan_decimal(n / 10);
        lemma_digit_char(n % 10);
        assert(decimal(n).drop_last() =~= decimal(n / 10));
        assert(n == (n / 10) * 10 + n % 10) by (nonlinear_arith);
    }
}

/// Reading back a written number gives the number: `n.to_string().parse::<u32>() == Ok(n)`.
pub proof fn lemma_parse_decimal_roundtrip(n: u32)
    ensures
        parse_u32(decimal(n as nat)) == Ok::<u32, IntErrorKind>(n),
{
    lemma_decimal_shape(n as nat);
    lemma_scan_decimal(n as nat);
}

// ---------------------------------------------------------------------------
// Building and rewriting text
// ---------------------------------------------------------------------------

/// Appends characters to `out`.
pub fn push_chars(out: &mut Vec<char>, s: &[char])
    ensures
        final(out)@ == old(out)@ + s@,
{
    let n = s.len();
    let mut i: usize = 0;
    while i < n
        invariant
            n == s@.len(),
            i <= n,
            out@ == old(out)@ + s@.take(i as int),
        decreases n - i,
    {
        out.push(s[i]);
        assert(s@.take(i + 1) =~= s@.take(i as int).push(s@[i as int]));
        i = i + 1;
    }
    assert(s@.take(n as int) =~= s@);
}

/// Appends the characters of a string slice to `out`.
pub fn push_str(out: &mut Vec<char>, s: &str)
    ensures
        final(out)@ == old(out)@ + s@,
{
    let v = to_chars(s);
    push_chars(out, v.as_slice());
}

/// `s` with every non-overlapping occurrence of `pat`, scanned left to right,
/// replaced by `rep` (`str::replace`); an empty pattern occurs before every character
/// and at the end.
pub open spec fn replace_all(s: Seq<char>, pat: Seq<char>, rep: Seq<char>) -> Seq<char>
    decreases s.len(),
{
    if pat.len() == 0 {
        if s.len() == 0 {
            rep
        } else {
            rep + seq![s[0]] + replace_all(s.drop_first(), pat, rep)
        }
    } else if s.len() == 0 {
        seq![]
    } else if starts_with(s, pat) {
        rep + replace_all(s.skip(pat.len() as int), pat, rep)
    } else {
        seq![s[0]] + replace_all(s.drop_first(), pat, rep)
    }
}

/// `str::replace`.
pub fn replace_chars(s: &[char], pat: &str, rep: &str) -> (r: Vec<char>)
    ensures
        r@ == replace_all(s@, pat@, rep@),
{
    let pv = to_chars(pat);
    let rv = to_chars(rep);
    let n = s.len();
    let mut out: Vec<char> = Vec::new();
    let mut i: usize = 0;
    assert(s@.skip(0) =~= s@);
    if pv.len() == 0 {
        while i < n
            invariant
                n == s@.len(),
                i <= n,
                rv@ == rep@,
                pat@.len() == 0,
                replace_all(s@, pat@, rep@) == out@ + replace_all(s@.skip(i as int), pat@, rep@),
            decreases n - i,
        {
            let ghost rest = s@.skip(i as int);
            assert(rest[0] == s@[i as int]);
            assert(rest.drop_first() =~= s@.skip(i + 1));
            push_chars(&mut out, rv.as_slice());
            out.push(s[i]);
            i = i + 1;
        }
        assert(s@.skip(n as int) =~= Seq::<char>::empty());
        push_chars(&mut out, rv.as_slice());
        return out;
    }
    while i < n
        invariant
            n == s@.len(),
            i <= n,
            pv@ == pat@,
            rv@ == rep@,
            pat@.len() > 0,
            replace_all(s@, pat@, rep@) == out@ + replace_all(s@.skip(i as int), pat@, rep@),
        decreases n - i,
    {
        let ghost rest = s@.skip(i as int);
        if matches_at(s, pv.as_slice(), i) {
            assert(rest.take(pat@.len() as int) =~= s@.subrange(i as int, i + pat@.len()));
            assert(rest.skip(pat@.len() as int) =~= s@.skip(i + pat@.len()));
            push_chars(&mut out, rv.as_slice());
            i = i + pv.len();
        } else {
            proof {
                if starts_with(rest, pat@) {
                    assert(rest.take(pat@.len() as int) =~= s@.subrange(i as int, i + pat@.len()));
                }
            }
            assert(rest.drop_first() =~= s@.skip(i + 1));
            out.push(s[i]);
            i = i + 1;
        }
    }
    assert(s@.skip(n as int) =~= Seq::<char>::empty());
    assert(out@ + Seq::<char>::empty() =~= out@);
    out
}

/// The ASCII lower-case form of a character (`char::to_ascii_lowercase`).
pub open spec fn ascii_lower(c: char) -> char {
    if 65 <= c as u32 <= 90 {
        (c as u32 + 32) as char
    } else {
        c
    }
}

/// `str::eq_ignore_ascii_case`.
pub open spec fn eq_ignore_ascii_case(a: Seq<char>, b: Seq<char>) -> bool {
    a.len() == b.len() && forall|i: int| 0 <= i < a.len() ==> ascii_lower(a[i]) == ascii_lower(b[i])
}

fn to_ascii_lower(c: char) -> (r: char)
    ensures
        r == ascii_lower(c),
{
    if 'A' <= c && c <= 'Z' {
        let u = c as u32 + 32;
        assert(65 <= c as u32 <= 90);
        char_from_ascii(u)
    } else {
        proof {
            assert(!(65 <= c as u32 <= 90));
        }
        c
    }
}

/// The character with an ASCII code point.
fn char_from_ascii(u: u32) -> (c: char)
    requires
        u < 128,
    ensures
        c == u as char,
{
    let b = u as u8;
    assert(b as u32 == u);
    b as char
}

/// `str::eq_ignore_ascii_case` on characters against a literal.
pub fn eq_ignore_ascii_case_str(a: &[char], b: &str) -> (r: bool)
    ensures
        r == eq_ignore_ascii_case(a@, b@),
{
    let bv = to_chars(b);
    if a.len() != bv.len() {
        return false;
    }
    let n = a.len();
    let mut i: usize = 0;
    while i < n
        invariant
            n == a@.len(),
            n == bv@.len(),
            bv@ == b@,
            i <= n,
            forall|k: int| 0 <= k < i ==> ascii_lower(a@[k]) == ascii_lower(b@[k]),
        decreases n - i,
    {
        if to_ascii_lower(a[i]) != to_ascii_lower(bv[i]) {
            return false;
        }
        i = i + 1;
    }
    true
}

/// `s` with every leading repetition of `pat` removed (`str::trim_start_matches`).
pub open spec fn trim_start_matches(s: Seq<char>, pat: Seq<char>) -> Seq<char>
    decreases s.len(),
{
    if pat.len() > 0 && starts_with(s, pat) {
        trim_start_matches(s.skip(pat.len() as int), pat)
    } else {
        s
    }
}

/// `str::trim_start_matches` with a non-empty literal pattern; returns the start index
/// of what is left.
pub fn trim_start_matches_index(s: &[char], start: usize, pat: &str) -> (k: usize)
    requires
        start <= s@.len(),
    ensures
        start <= k <= s@.len(),
        trim_start_matches(s@.skip(start as int), pat@) == s@.skip(k as int),
{
    let pv = to_chars(pat);
    let n = s.len();
    let mut k = start;
    while pv.len() > 0 && matches_at(s, pv.as_slice(), k)
        invariant
            n == s@.len(),
            start <= k <= n,
            pv@ == pat@,
            trim_start_matches(s@.skip(start as int), pat@) == trim_start_matches(
                s@.skip(k as int),
                pat@,
            ),
        decreases n - k,
    {
        assert(s@.skip(k as int).take(pat@.len() as int) =~= s@.subrange(
            k as int,
            k + pat@.len(),
        ));
        assert(s@.skip(k as int).skip(pat@.len() as int) =~= s@.skip(k + pat@.len()));
        k = k + pv.len();
    }
    proof {
        if pat@.len() > 0 && starts_with(s@.skip(k as int), pat@) {
            assert(s@.skip(k as int).take(pat@.len() as int) =~= s@.subrange(
                k as int,
                k + pat@.len(),
            ));
        }
    }
    k
}

/// `s` with every trailing `c` removed (`str::trim_end_matches` with a character).
pub open spec fn trim_end_char(s: Seq<char>, c: char) -> Seq<char>
    decreases s.len(),
{
    if s.len() > 0 && s.last() == c {
        trim_end_char(s.drop_last(), c)
    } else {
        s
    }
}

/// `str::trim_end_matches` with a character pattern.
pub fn trim_end_char_chars(s: &[char], c: char) -> (r: Vec<char>)
    ensures
        r@ == trim_end_char(s@, c),
{
    let mut j: usize = s.len();
    assert(s@.subrange(0, s@.len() as int) =~= s@);
    while j > 0 && s[j - 1] == c
        invariant
            j <= s@.len(),
            trim_end_char(s@, c) == trim_end_char(s@.subrange(0, j as int), c),
        decreases j,
    {
        assert(s@.subrange(0, j as int).drop_last() =~= s@.subrange(0, j - 1));
        j = j - 1;
    }
    vstd::slice::slice_to_vec(&s[0..j])
}

/// The elements of `parts` separated by `sep` (`[String]::join`).
pub open spec fn join(parts: Seq<Seq<char>>, sep: Seq<char>) -> Seq<char>
    decreases parts.len(),
{
    if parts.len() == 0 {
        seq![]
    } else if parts.len() == 1 {
        parts[0]
    } else {
        join(parts.drop_last(), sep) + sep + parts.last()
    }
}

/// The views of a sequence of strings.
pub open spec fn views(v: Seq<String>) -> Seq<Seq<char>> {
    v.map_values(|s: String| s@)
}

/// `[String]::join` with a literal separator.
pub fn join_strings(parts: &[String], sep: &str) -> (r: Vec<char>)
    ensures
        r@ == join(views(parts@), sep@),
{
    let n = parts.len();
    let mut out: Vec<char> = Vec::new();
    let mut i: usize = 0;
    while i < n
        invariant
            n == parts@.len(),
            i <= n,
            out@ == join(views(parts@).take(i as int), sep@),
        decreases n - i,
    {
        let piece = to_chars(parts[i].as_str());
        assert(views(parts@).take(i + 1).drop_last() =~= views(parts@).take(i as int));
        if i > 0 {
            push_str(&mut out, sep);
        }
        push_chars(&mut out, piece.as_slice());
        proof {
            if i == 0 {
                assert(out@ =~= views(parts@).take(1)[0]);
            }
        }
        i = i + 1;
    }
    assert(views(parts@).take(n as int) =~= views(parts@));
    out
}

// ---------------------------------------------------------------------------
// Unicode case mapping and debug quoting (std)
// ---------------------------------------------------------------------------

/// What `str::to_lowercase` returns for a text (full Unicode lower-casing).
pub uninterp spec fn lowercase(s: Seq<char>) -> Seq<char>;

/// `str::to_lowercase`. Claimed: the result is a function of the text alone.
#[verifier::external_body]
pub(crate) fn to_lowercase(s: &str) -> (r: String)
    ensures
        r@ == lowercase(s@),
{
    s.to_lowercase()
}

/// What `char::to_uppercase` yields for a character (one to three characters).
pub uninterp spec fn uppercase(c: char) -> Seq<char>;

/// `char::to_uppercase`, collected. Claimed: the result is a function of the character alone.
#[verifier::external_body]
pub(crate) fn char_to_uppercase(c: char) -> (r: String)
    ensures
        r@ == uppercase(c),
{
    c.to_uppercase().to_string()
}

/// What `format!("{:?}", s)` writes for a text: the quoted, escaped form.
pub uninterp spec fn debug_quoted(s: Seq<char>) -> Seq<char>;

/// The `Debug` form of a string slice. Claimed: the result is a function of the text alone.
#[verifier::external_body]
pub(crate) fn debug_str(s: &str) -> (r: String)
    ensures
        r@ == debug_quoted(s@),
{
    format!("{:?}", s)
}

/// Character-wise equality (`==` on strings).
pub fn chars_eq(a: &[char], b: &[char]) -> (r: bool)
    ensures
        r == (a@ == b@),
{
    if a.len() != b.len() {
        return false;
    }
    let n = a.len();
    let mut i: usize = 0;
    while i < n
        invariant
            n == a@.len(),
            n == b@.len(),
            i <= n,
            forall|k: int| 0 <= k < i ==> a@[k] == b@[k],
        decreases n - i,
    {
        if a[i] != b[i] {
            return false;
        }
        i = i + 1;
    }
    assert(a@ =~= b@);
    true
}

/// Equality of characters with a literal.
pub fn chars_eq_str(a: &[char], b: &str) -> (r: bool)
    ensures
        r == (a@ == b@),
{
    let bv = to_chars(b);
    chars_eq(a, bv.as_slice())
}

/// Index of the first character at or after `i` that is not an ASCII digit, or the length.
pub open spec fn digit_run(s: Seq<char>, i: nat) -> nat
    decreases s.len() - i,
{
    if i >= s.len() {
        s.len()
    } else if !is_digit(s[i as int]) {
        i
    } else {
        digit_run(s, i + 1)
    }
}

/// `digit_run` on characters.
pub fn digit_run_index(s: &[char], start: usize) -> (k: usize)
    requires
        start <= s@.len(),
    ensures
        k == digit_run(s@, start as nat),
        start <= k <= s@.len(),
{
    let n = s.len();
    let mut k = start;
    while k < n
        invariant
            n == s@.len(),
            start <= k <= n,
            digit_run(s@, start as nat) == digit_run(s@, k as nat),
        decreases n - k,
    {
        let u = s[k] as u32;
        if !(48 <= u && u <= 57) {
            return k;
        }
        k = k + 1;
    }
    k
}

/// Every character of a decimal representation is a digit.
pub proof fn lemma_decimal_digits(n: nat)
    ensures
        forall|i: int| 0 <= i < decimal(n).len() ==> is_digit(#[trigger] decimal(n)[i]),
    decreases n,
{
    if n < 10 {
        lemma_digit_char(n);
    } else {
        lemma_decimal_digits(n / 10);
        lemma_digit_char(n % 10);
        assert forall|i: int| 0 <= i < decimal(n).len() implies is_digit(
            #[trigger] decimal(n)[i],
        ) by {
            if i < decimal(n / 10).len() {
                assert(decimal(n)[i] == decimal(n / 10)[i]);
            }
        }
    }
}

/// `trim_start(x)` drops exactly the leading run of whitespace: the result is `x`
/// from the first character that is not whitespace.
pub proof fn lemma_trim_start_skip(x: Seq<char>) -> (k: int)
    ensures
        0 <= k <= x.len(),
        trim_start(x) == x.skip(k),
        forall|i: int| 0 <= i < k ==> is_ws(#[trigger] x[i]),
        k < x.len() ==> !is_ws(x[k]),
    decreases x.len(),
{
    if x.len() > 0 && is_ws(x[0]) {
        let k0 = lemma_trim_start_skip(x.drop_first());
        assert(x.drop_first().skip(k0) =~= x.skip(k0 + 1));
        assert forall|i: int| 0 <= i < k0 + 1 implies is_ws(#[trigger] x[i]) by {
            if i > 0 {
                assert(x[i] == x.drop_first()[i - 1]);
            }
        }
        if k0 + 1 < x.len() {
            assert(x[k0 + 1] == x.drop_first()[k0]);
        }
        k0 + 1
    } else {
        assert(x.skip(0) =~= x);
        0
    }
}

/// `trim_end(x)` drops exactly the trailing run of whitespace: the result is `x`
/// up to and including its last character that is not whitespace.
pub proof fn lemma_trim_end_take(x: Seq<char>) -> (j: int)
    ensures
        0 <= j <= x.len(),
        trim_end(x) == x.take(j),
        forall|i: int| j <= i < x.len() ==> is_ws(#[trigger] x[i]),
        j > 0 ==> !is_ws(x[j - 1]),
    decreases x.len(),
{
    if x.len() > 0 && is_ws(x.last()) {
        let j0 = lemma_trim_end_take(x.drop_last());
        assert(x.drop_last().take(j0) =~= x.take(j0));
        assert forall|i: int| j0 <= i < x.len() implies is_ws(#[trigger] x[i]) by {
            if i < x.len() - 1 {
                assert(x[i] == x.drop_last()[i]);
            }
        }
        if j0 > 0 {
            assert(x[j0 - 1] == x.drop_last()[j0 - 1]);
        }
        j0
    } else {
        assert(x.take(x.len() as int) =~= x);
        x.len() as int
    }
}

/// The trim of a text is the stretch from its first to its last character that is
/// not whitespace.
pub proof fn lemma_trim_subrange(x: Seq<char>, a: int, b: int)
    requires
        0 <= a < b <= x.len(),
        forall|i: int| 0 <= i < a ==> is_ws(#[trigger] x[i]),
        !is_ws(x[a]),
        !is_ws(x[b - 1]),
        forall|i: int| b <= i < x.len() ==> is_ws(#[trigger] x[i]),
    ensures
        trim(x) == x.subrange(a, b),
{
    let k = lemma_trim_start_skip(x);
    if k < a {
        assert(is_ws(x[k]));
    }
    if k > a {
        assert(is_ws(x[a]));
    }
    assert(k == a);
    let y = x.skip(a);
    let j = lemma_trim_end_take(y);
    if j < b - a {
        assert(is_ws(y[b - a - 1]));
        assert(y[b - a - 1] == x[b - 1]);
    }
    if j > b - a {
        assert(y[j - 1] == x[a + j - 1]);
        assert(is_ws(x[a + j - 1]));
    }
    assert(j == b - a);
    assert(y.take(j) =~= x.subrange(a, b));
}

/// Every character of `replace_all(s, pat, rep)` comes from `s` or from `rep`.
pub proof fn lemma_replace_all_chars(s: Seq<char>, pat: Seq<char>, rep: Seq<char>)
    ensures
        forall|i: int|
            0 <= i < replace_all(s, pat, rep).len() ==> s.contains(
                #[trigger] replace_all(s, pat, rep)[i],
            ) || rep.contains(replace_all(s, pat, rep)[i]),
    decreases s.len(),
{
    let r = replace_all(s, pat, rep);
    if s.len() > 0 {
        let tail = if pat.len() > 0 && starts_with(s, pat) {
            s.skip(pat.len() as int)
        } else {
            s.drop_first()
        };
        lemma_replace_all_chars(tail, pat, rep);
        let rt = replace_all(tail, pat, rep);
        assert forall|i: int| 0 <= i < r.len() implies s.contains(#[trigger] r[i]) || rep.contains(
            r[i],
        ) by {
            if pat.len() == 0 {
                assert(r == rep + seq![s[0]] + rt);
                if i < rep.len() {
                    assert(r[i] == rep[i]);
                } else if i == rep.len() {
                    assert(r[i] == s[0]);
                } else {
                    assert(r[i] == rt[i - rep.len() - 1]);
                    if tail.contains(rt[i - rep.len() - 1]) {
                        let j = choose|j: int| 0 <= j < tail.len() && tail[j] == rt[i - rep.len() - 1];
                        assert(s[j + 1] == tail[j]);
                    }
                }
            } else if starts_with(s, pat) {
                assert(r == rep + rt);
                if i < rep.len() {
                    assert(r[i] == rep[i]);
                } else {
                    assert(r[i] == rt[i - rep.len()]);
                    if tail.contains(rt[i - rep.len()]) {
                        let j = choose|j: int| 0 <= j < tail.len() && tail[j] == rt[i - rep.len()];
                        assert(s[j + pat.len()] == tail[j]);
                    }
                }
            } else {
                assert(r == seq![s[0]] + rt);
                if i == 0 {
                    assert(r[i] == s[0]);
                } else {
                    assert(r[i] == rt[i - 1]);
                    if tail.contains(rt[i - 1]) {
                        let j = choose|j: int| 0 <= j < tail.len() && tail[j] == rt[i - 1];
                        assert(s[j + 1] == tail[j]);
                    }
                }
            }
        }
    }
}

/// Replacing a single character by a text without it leaves none of that character.
pub proof fn lemma_replace_all_removes(s: Seq<char>, c: char, rep: Seq<char>)
    requires
        !rep.contains(c),
    ensures
        !replace_all(s, seq![c], rep).contains(c),
    decreases s.len(),
{
    let r = replace_all(s, seq![c], rep);
    if s.len() > 0 {
        if starts_with(s, seq![c]) {
            lemma_replace_all_removes(s.skip(1), c, rep);
            let rt = replace_all(s.skip(1), seq![c], rep);
            assert(r == rep + rt);
            if r.contains(c) {
                let i = choose|i: int| 0 <= i < r.len() && r[i] == c;
                if i < rep.len() {
                    assert(rep[i] == c);
                } else {
                    assert(rt[i - rep.len()] == c);
                }
            }
        } else {
            assert(s[0] != c) by {
                if s[0] == c {
                    assert(s.take(1) =~= seq![c]);
                }
            }
            lemma_replace_all_removes(s.drop_first(), c, rep);
            let rt = replace_all(s.drop_first(), seq![c], rep);
            assert(r == seq![s[0]] + rt);
            if r.contains(c) {
                let i = choose|i: int| 0 <= i < r.len() && r[i] == c;
                if i > 0 {
                    assert(rt[i - 1] == c);
                }
            }
        }
    }
}

/// In a text that begins with digits and then `c` (not a digit), `c` is first found
/// right after the digits.
pub proof fn lemma_find_char_after_digits(t: Seq<char>, c: char, d: nat, i: nat)
    requires
        i <= d < t.len(),
        t[d as int] == c,
        !is_digit(c),
        forall|k: int| 0 <= k < d ==> is_digit(#[trigger] t[k]),
    ensures
        find_from(t, seq![c], i) == Some(d),
    decreases d - i,
{
    if i < d {
        assert(t.subrange(i as int, i + 1 as int)[0] == t[i as int]);
        assert(is_digit(t[i as int]));
        lemma_find_char_after_digits(t, c, d, i + 1);
    } else {
        assert(t.subrange(i as int, i + 1 as int) =~= seq![c]);
    }
}

/// `split_once` splits at the first occurrence of the character, and finds nothing in a
/// text without it.
pub proof fn lemma_split_once_first(a: Seq<char>, c: char, b: Seq<char>)
    requires
        !a.contains(c),
    ensures
        split_once(a + seq![c] + b, c) == Some((a, b)),
{
    let s = a + seq![c] + b;
    lemma_find_from(s, seq![c], 0);
    assert(s.subrange(a.len() as int, a.len() + 1 as int) =~= seq![c]);
    assert(occurs_at(s, seq![c], a.len() as int));
    match find(s, seq![c]) {
        Some(k) => {
            if k < a.len() {
                assert(s.subrange(k as int, k + 1 as int)[0] == s[k as int]);
                assert(s[k as int] == a[k as int]);
                assert(a.contains(c));
            }
            assert(k == a.len());
        },
        None => {},
    }
    assert(s.take(a.len() as int) =~= a);
    assert(s.skip(a.len() + 1 as int) =~= b);
}

/// `split_once` finds nothing in a text without the character.
pub proof fn lemma_split_once_none(s: Seq<char>, c: char)
    requires
        !s.contains(c),
    ensures
        split_once(s, c) is None,
{
    lemma_find_from(s, seq![c], 0);
    if let Some(k) = find(s, seq![c]) {
        assert(s.subrange(k as int, k + 1 as int)[0] == s[k as int]);
        assert(s.contains(c));
    }
}

/// Joining is associative over concatenation: the join of two non-empty lists is the
/// join of the first, the separator, and the join of the second; one part joins to
/// itself and no parts to the empty text.
pub proof fn lemma_join_concat(a: Seq<Seq<char>>, b: Seq<Seq<char>>, sep: Seq<char>)
    requires
        a.len() > 0,
        b.len() > 0,
    ensures
        join(a + b, sep) == join(a, sep) + sep + join(b, sep),
        join(seq![b[0]], sep) == b[0],
        join(Seq::<Seq<char>>::empty(), sep) == Seq::<char>::empty(),
    decreases b.len(),
{
    assert(seq![b[0]].len() == 1);
    if b.len() == 1 {
        assert((a + b).drop_last() =~= a);
        assert((a + b).last() == b[0]);
    } else {
        let b0 = b.drop_last();
        lemma_join_concat(a, b0, sep);
        assert((a + b).drop_last() =~= a + b0);
        assert((a + b).last() == b.last());
        assert(b0[0] == b[0]);
    }
}

/// `trim_end_char(s, c)` is `s` without its trailing run of `c`: a prefix of `s` that
/// does not end in `c`, followed in `s` only by `c`.
pub proof fn lemma_trim_end_char(s: Seq<char>, c: char)
    ensures
        trim_end_char(s, c).len() <= s.len(),
        s.take(trim_end_char(s, c).len() as int) == trim_end_char(s, c),
        trim_end_char(s, c).len() == 0 || trim_end_char(s, c).last() != c,
        forall|i: int| trim_end_char(s, c).len() <= i < s.len() ==> s[i] == c,
    decreases s.len(),
{
    if s.len() > 0 && s.last() == c {
        let s0 = s.drop_last();
        lemma_trim_end_char(s0, c);
        let t = trim_end_char(s0, c);
        assert(s.take(t.len() as int) =~= s0.take(t.len() as int));
        assert forall|i: int| t.len() <= i < s.len() implies s[i] == c by {
            if i < s.len() - 1 {
                assert(s[i] == s0[i]);
            }
        }
    } else {
        assert(s.take(s.len() as int) =~= s);
    }
}

/// A number that `str::parse::<u32>` accepts is written with decimal digits only, after
/// an optional `+`; an empty text is refused as empty.
pub proof fn lemma_parse_u32_accepts_digits(s: Seq<char>)
    ensures
        parse_u32(Seq::<char>::empty()) == Err::<u32, IntErrorKind>(IntErrorKind::Empty),
        parse_u32(s) is Ok ==> s.len() > 0 && forall|i: int|
            0 <= i < s.len() ==> (48 <= (#[trigger] s[i]) as u32 <= 57 || (i == 0 && s[i]
                == '+')),
{
    if parse_u32(s) is Ok {
        let d = if s[0] == '+' {
            s.drop_first()
        } else {
            s
        };
        lemma_scan_ok_digits(d);
        assert forall|i: int| 0 <= i < s.len() implies (48 <= (#[trigger] s[i]) as u32 <= 57 || (
        i == 0 && s[i] == '+')) by {
            if s[0] == '+' {
                if i > 0 {
                    assert(d[i - 1] == s[i]);
                }
            } else {
                assert(d[i] == s[i]);
            }
        }
    }
}

/// A digit string that the scan accepts holds decimal digits only.
pub proof fn lemma_scan_ok_digits(d: Seq<char>)
    requires
        scan_digits(d) is Ok,
    ensures
        forall|i: int| 0 <= i < d.len() ==> is_digit(#[trigger] d[i]),
    decreases d.len(),
{
    if d.len() > 0 {
        lemma_scan_ok_digits(d.drop_last());
        assert forall|i: int| 0 <= i < d.len() implies is_digit(#[trigger] d[i]) by {
            if i < d.len() - 1 {
                assert(d[i] == d.drop_last()[i]);
            }
        }
    }
}

proof fn lemma_scan_decimal_overflow(n: nat)
    requires
        n > u32::MAX,
    ensures
        scan_digits(decimal(n)) == Err::<nat, IntErrorKind>(IntErrorKind::PosOverflow),
    decreases n,
{
    let q = n / 10;
    lemma_digit_char(n % 10);
    assert(n >= 10);
    assert(decimal(n).drop_last() =~= decimal(q));
    assert(decimal(n).last() == digit_char(n % 10));
    if q > u32::MAX {
        lemma_scan_decimal_overflow(q);
    } else {
        lemma_scan_decimal(q);
        assert(n == (n / 10) * 10 + n % 10) by (nonlinear_arith);
    }
}

/// A number written in decimal that is too large for a `u32` is refused as an overflow.
pub proof fn lemma_parse_decimal_overflow(n: nat)
    requires
        n > u32::MAX,
    ensures
        parse_u32(decimal(n)) == Err::<u32, IntErrorKind>(IntErrorKind::PosOverflow),
{
    lemma_decimal_shape(n);
    lemma_scan_decimal_overflow(n);
    if decimal(n).len() == 1 {
        assert(n >= 10);
        reveal_with_fuel(decimal, 2);
        lemma_decimal_shape(n / 10);
    }
}

} // verus!
