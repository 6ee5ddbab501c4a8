//! Parsing of the size and point arguments the command-line tools take:
//! `{w,h}` and `{x,y}` pairs, and comma-separated lists of them.

use vstd::prelude::*;
use crate::text::{chars_of, is_white_space, is_whitespace};
use crate::types::{Point, Size};

verus! {

/// A class of characters to trim.
#[derive(Clone, Copy)]
pub enum CharClass {
    WhiteSpace,
    Is(char),
}

pub open spec fn in_class(k: CharClass, c: char) -> bool {
    match k {
        CharClass::WhiteSpace => is_white_space(c),
        CharClass::Is(d) => c == d,
    }
}

/// `s` without its leading characters of class `k`.
pub open spec fn drop_front_while(s: Seq<char>, k: CharClass) -> Seq<char>
    decreases s.len(),
{
    if s.len() > 0 && in_class(k, s[0]) {
        drop_front_while(s.drop_first(), k)
    } else {
        s
    }
}

/// `s` without its trailing characters of class `k`.
pub open spec fn drop_back_while(s: Seq<char>, k: CharClass) -> Seq<char>
    decreases s.len(),
{
    if s.len() > 0 && in_class(k, s.last()) {
        drop_back_while(s.drop_last(), k)
    } else {
        s
    }
}

/// `s` without leading and trailing white space (`str::trim`).
pub open spec fn trim_ws(s: Seq<char>) -> Seq<char> {
    drop_back_while(drop_front_while(s, CharClass::WhiteSpace), CharClass::WhiteSpace)
}

/// The text of a pair: trimmed, then without leading '{' and trailing '}'.
pub open spec fn pair_text(s: Seq<char>) -> Seq<char> {
    drop_back_while(drop_front_while(trim_ws(s), CharClass::Is('{')), CharClass::Is('}'))
}

/// The position of the one `c` in `t`, if `t` holds exactly one.
pub open spec fn single_index(t: Seq<char>, c: char) -> Option<int> {
    if exists|i: int|
        0 <= i < t.len() && t[i] == c && forall|j: int| 0 <= j < t.len() && j != i ==> t[j] != c {
        Some(
            choose|i: int|
                0 <= i < t.len() && t[i] == c && forall|j: int|
                    0 <= j < t.len() && j != i ==> t[j] != c,
        )
    } else {
        None
    }
}

/// Why a decimal number was refused, as `u32`'s `from_str` reports it.
#[derive(Debug, Clone, Copy, PartialEq, Eq, Structural)]
pub enum IntParseError {
    Empty,
    InvalidDigit,
    PosOverflow,
}

pub open spec fn is_digit(c: char) -> bool {
    '0' <= c <= '9'
}

pub open spec fn digit_value(c: char) -> nat {
    (c as u32 - '0' as u32) as nat
}

/// The number the decimal digits `s` denote.
pub open spec fn decimal_value(s: Seq<char>) -> nat
    decreases s.len(),
{
    if s.len() == 0 {
        0
    } else {
        decimal_value(s.drop_last()) * 10 + digit_value(s.last())
    }
}

/// The number of leading decimal digits of `s`.
pub open spec fn digit_run(s: Seq<char>) -> nat
    decreases s.len(),
{
    if s.len() > 0 && is_digit(s[0]) {
        1 + digit_run(s.drop_first())
    } else {
        0
    }
}

/// Parse a `u32` in decimal the way `u32::from_str` does: one optional
/// leading '+', then digits; a number past `u32::MAX` before the first
/// non-digit is an overflow, otherwise any non-digit is an invalid digit.
pub open spec fn spec_parse_u32(s: Seq<char>) -> Result<u32, IntParseError> {
    if s.len() == 0 {
        Err(IntParseError::Empty)
    } else if s.len() == 1 && (s[0] == '+' || s[0] == '-') {
        Err(IntParseError::InvalidDigit)
    } else {
        let d = if s[0] == '+' { s.drop_first() } else { s };
        let k = digit_run(d);
        if decimal_value(d.take(k as int)) > u32::MAX {
            Err(IntParseError::PosOverflow)
        } else if k < d.len() {
            Err(IntParseError::InvalidDigit)
        } else {
            Ok(decimal_value(d) as u32)
        }
    }
}

/// The message `ParseIntError` displays for each kind of error.
pub open spec fn int_error_message(e: IntParseError) -> Seq<char> {
    match e {
        IntParseError::Empty => "cannot parse integer from empty string"@,
        IntParseError::InvalidDigit => "invalid digit found in string"@,
        IntParseError::PosOverflow => "number too large to fit in target type"@,
    }
}

/// The message for text that is not a pair.
pub open spec fn pair_message(point: bool, t: Seq<char>) -> Seq<char> {
    (if point { "Expected {x,y}, got '"@ } else { "Expected {w,h}, got '"@ }) + t + "'"@
}

/// The message for a list that holds no pair.
pub open spec fn list_message(point: bool, s: Seq<char>) -> Seq<char> {
    (if point { "Expected {x,y} list, got '"@ } else { "Expected {w,h} list, got '"@ }) + s + "'"@
}

/// Parse `{a,b}`: trim, drop leading '{' and trailing '}', split at the
/// one comma, and parse both trimmed halves as `u32`.
pub open spec fn spec_parse_pair(s: Seq<char>, point: bool) -> Result<(u32, u32), Seq<char>> {
    let t = pair_text(s);
    match single_index(t, ',') {
        None => Err(pair_message(point, t)),
        Some(i) => match spec_parse_u32(trim_ws(t.take(i))) {
            Err(e) => Err(int_error_message(e)),
            Ok(a) => match spec_parse_u32(trim_ws(t.skip(i + 1))) {
                Err(e) => Err(int_error_message(e)),
                Ok(b) => Ok((a, b)),
            },
        },
    }
}

proof fn lemma_drop_front(s: Seq<char>, k: CharClass, i: int)
    requires
        0 <= i <= s.len(),
        forall|j: int| 0 <= j < i ==> in_class(k, #[trigger] s[j]),
        i == s.len() || !in_class(k, s[i]),
    ensures
        drop_front_while(s, k) == s.skip(i),
    decreases i,
{
    if i == 0 {
        assert(s.skip(0) =~= s);
    } else {
        assert forall|j: int| 0 <= j < i - 1 implies in_class(k, #[trigger] s.drop_first()[j]) by {
            assert(s.drop_first()[j] == s[j + 1]);
        }
        lemma_drop_front(s.drop_first(), k, i - 1);
        assert(s.drop_first().skip(i - 1) =~= s.skip(i));
    }
}

proof fn lemma_drop_back(s: Seq<char>, k: CharClass, i: int)
    requires
        0 <= i <= s.len(),
        forall|j: int| i <= j < s.len() ==> in_class(k, #[trigger] s[j]),
        i == 0 || !in_class(k, s[i - 1]),
    ensures
        drop_back_while(s, k) == s.take(i),
    decreases s.len() - i,
{
    if i == s.len() {
        assert(s.take(i) =~= s);
    } else {
        lemma_drop_back(s.drop_last(), k, i);
        assert(s.drop_last().take(i) =~= s.take(i));
    }
}

/// Move `lo` past the leading characters of class `k` in `s[lo..hi]`.
fn trim_front(s: &[char], lo: usize, hi: usize, k: CharClass) -> (a: usize)
    requires
        lo <= hi <= s@.len(),
    ensures
        lo <= a <= hi,
        s@.subrange(a as int, hi as int) == drop_front_while(s@.subrange(lo as int, hi as int), k),
{
    let mut a = lo;
    while a < hi && class_has(k, s[a])
        invariant
            lo <= a <= hi <= s@.len(),
            forall|j: int| lo <= j < a ==> in_class(k, #[trigger] s@[j]),
        decreases hi - a,
    {
        a = a + 1;
    }
    let ghost sub = s@.subrange(lo as int, hi as int);
    proof {
        assert forall|j: int| 0 <= j < a - lo implies in_class(k, #[trigger] sub[j]) by {
            assert(sub[j] == s@[lo + j]);
        }
        lemma_drop_front(sub, k, a - lo);
        assert(sub.skip(a - lo) =~= s@.subrange(a as int, hi as int));
    }
    a
}

/// Move `hi` before the trailing characters of class `k` in `s[lo..hi]`.
fn trim_back(s: &[char], lo: usize, hi: usize, k: CharClass) -> (b: usize)
    requires
        lo <= hi <= s@.len(),
    ensures
        lo <= b <= hi,
        s@.subrange(lo as int, b as int) == drop_back_while(s@.subrange(lo as int, hi as int), k),
{
    let mut b = hi;
    while b > lo && class_has(k, s[b - 1])
        invariant
            lo <= b <= hi <= s@.len(),
            forall|j: int| b <= j < hi ==> in_class(k, #[trigger] s@[j]),
        decreases b - lo,
    {
        b = b - 1;
    }
    let ghost sub = s@.subrange(lo as int, hi as int);
    proof {
        assert forall|j: int| b - lo <= j < sub.len() implies in_class(k, #[trigger] sub[j]) by {
            assert(sub[j] == s@[lo + j]);
        }
        lemma_drop_back(sub, k, b - lo);
        assert(sub.take(b - lo) =~= s@.subrange(lo as int, b as int));
    }
    b
}

/// Narrow `s[lo..hi]` to its trimmed part.
fn trim_ws_range(s: &[char], lo: usize, hi: usize) -> (r: (usize, usize))
    requires
        lo <= hi <= s@.len(),
    ensures
        lo <= r.0 <= r.1 <= hi,
        s@.subrange(r.0 as int, r.1 as int) == trim_ws(s@.subrange(lo as int, hi as int)),
{
    let a = trim_front(s, lo, hi, CharClass::WhiteSpace);
    let b = trim_back(s, a, hi, CharClass::WhiteSpace);
    (a, b)
}

fn class_has(k: CharClass, c: char) -> (r: bool)
    ensures
        r == in_class(k, c),
{
    match k {
        CharClass::WhiteSpace => is_whitespace(c),
        CharClass::Is(d) => c == d,
    }
}

proof fn lemma_digit_run(s: Seq<char>, i: int)
    requires
        0 <= i <= s.len(),
        forall|j: int| 0 <= j < i ==> is_digit(#[trigger] s[j]),
        i == s.len() || !is_digit(s[i]),
    ensures
        digit_run(s) == i,
    decreases i,
{
    if i > 0 {
        assert forall|j: int| 0 <= j < i - 1 implies is_digit(#[trigger] s.drop_first()[j]) by {
            assert(s.drop_first()[j] == s[j + 1]);
        }
        lemma_digit_run(s.drop_first(), i - 1);
    }
}

proof fn lemma_decimal_monotonic(s: Seq<char>, i: int, j: int)
    requires
        0 <= i <= j <= s.len(),
        forall|k: int| 0 <= k < j ==> is_digit(#[trigger] s[k]),
    ensures
        decimal_value(s.take(i)) <= decimal_value(s.take(j)),
    decreases j - i,
{
    if i < j {
        lemma_decimal_monotonic(s, i, j - 1);
        assert(s.take(j).drop_last() =~= s.take(j - 1));
    }
}

/// Parse `s[lo..hi]` as `u32::from_str` does.
fn parse_u32(s: &[char], lo: usize, hi: usize) -> (r: Result<u32, IntParseError>)
    requires
        lo <= hi <= s@.len(),
    ensures
        r == spec_parse_u32(s@.subrange(lo as int, hi as int)),
{
    let ghost t = s@.subrange(lo as int, hi as int);
    if lo == hi {
        return Err(IntParseError::Empty);
    }
    if hi - lo == 1 && (s[lo] == '+' || s[lo] == '-') {
        return Err(IntParseError::InvalidDigit);
    }
    let start = if s[lo] == '+' { lo + 1 } else { lo };
    let ghost d = if t[0] == '+' { t.drop_first() } else { t };
    assert(d =~= s@.subrange(start as int, hi as int));
    let mut acc: u64 = 0;
    let mut i = start;
    while i < hi
        invariant
            lo <= start <= i <= hi <= s@.len(),
            d == s@.subrange(start as int, hi as int),
            t == s@.subrange(lo as int, hi as int),
            t.len() > 0,
            !(t.len() == 1 && (t[0] == '+' || t[0] == '-')),
            d == if t[0] == '+' { t.drop_first() } else { t },
            forall|j: int| 0 <= j < i - start ==> is_digit(#[trigger] d[j]),
            acc == decimal_value(d.take(i - start)),
            acc <= u32::MAX,
        decreases hi - i,
    {
        let c = s[i];
        if !('0' <= c && c <= '9') {
            proof {
                assert(d[i - start] == c);
                lemma_digit_run(d, i - start);
                assert(digit_run(d) == i - start);
                assert(t.len() > 0);
                assert(!(t.len() == 1 && (t[0] == '+' || t[0] == '-')));
                assert(decimal_value(d.take(digit_run(d) as int)) <= u32::MAX);
                assert(digit_run(d) < d.len());
                assert(spec_parse_u32(t) == Err::<u32, IntParseError>(IntParseError::InvalidDigit));
            }
            return Err(IntParseError::InvalidDigit);
        }
        let next = acc * 10 + (c as u64 - '0' as u64);
        proof {
            assert(d.take(i - start + 1).drop_last() =~= d.take(i - start));
        }
        if next > u32::MAX as u64 {
            proof {
                assert forall|j: int| 0 <= j < i - start + 1 implies is_digit(#[trigger] d[j]) by {}
                lemma_digit_run_at_least(d, i - start + 1);
                lemma_digits_prefix_of_run(d);
                lemma_decimal_monotonic(d, i - start + 1, digit_run(d) as int);
            }
            return Err(IntParseError::PosOverflow);
        }
        acc = next;
        i = i + 1;
    }
    proof {
        lemma_digit_run(d, d.len() as int);
        assert(d.take(d.len() as int) =~= d);
    }
    Ok(acc as u32)
}

proof fn lemma_digit_run_at_least(s: Seq<char>, i: int)
    requires
        0 <= i <= s.len(),
        forall|j: int| 0 <= j < i ==> is_digit(#[trigger] s[j]),
    ensures
        digit_run(s) >= i,
    decreases i,
{
    if i > 0 {
        assert forall|j: int| 0 <= j < i - 1 implies is_digit(#[trigger] s.drop_first()[j]) by {
            assert(s.drop_first()[j] == s[j + 1]);
        }
        lemma_digit_run_at_least(s.drop_first(), i - 1);
    }
}

proof fn lemma_digits_prefix_of_run(s: Seq<char>)
    ensures
        digit_run(s) <= s.len(),
        forall|j: int| 0 <= j < digit_run(s) ==> is_digit(#[trigger] s[j]),
    decreases s.len(),
{
    if s.len() > 0 && is_digit(s[0]) {
        lemma_digits_prefix_of_run(s.drop_first());
        assert forall|j: int| 0 <= j < digit_run(s) implies is_digit(#[trigger] s[j]) by {
            if j > 0 {
                assert(s[j] == s.drop_first()[j - 1]);
            }
        }
    }
}

/// The message of an integer parse error, as a string.
fn int_error_string(e: IntParseError) -> (m: String)
    ensures
        m@ == int_error_message(e),
{
    match e {
        IntParseError::Empty => "cannot parse integer from empty string".to_owned(),
        IntParseError::InvalidDigit => "invalid digit found in string".to_owned(),
        IntParseError::PosOverflow => "number too large to fit in target type".to_owned(),
    }
}

/// Find the one comma of `s[lo..hi]`, if there is exactly one.
fn single_comma(s: &[char], lo: usize, hi: usize) -> (r: Option<usize>)
    requires
        lo <= hi <= s@.len(),
    ensures
        match single_index(s@.subrange(lo as int, hi as int), ',') {
            Some(i) => r == Some((lo + i) as usize),
            None => r is None,
        },
{
    let ghost t = s@.subrange(lo as int, hi as int);
    let mut count: usize = 0;
    let mut first: usize = 0;
    let ghost mut second: int = 0;
    let mut i = lo;
    while i < hi
        invariant
            lo <= i <= hi <= s@.len(),
            t == s@.subrange(lo as int, hi as int),
            count <= 2,
            count == 0 ==> forall|j: int| lo <= j < i ==> s@[j] != ',',
            count >= 1 ==> lo <= first < i && s@[first as int] == ',',
            count == 1 ==> forall|j: int| lo <= j < i && j != first ==> s@[j] != ',',
            count == 2 ==> lo <= second < i && second != first && s@[second] == ',',
        decreases hi - i,
    {
        if s[i] == ',' {
            if count == 0 {
                first = i;
                count = 1;
            } else if count == 1 {
                proof {
                    second = i as int;
                }
                count = 2;
            }
        }
        i = i + 1;
    }
    if count == 1 {
        proof {
            let w = first - lo;
            assert(0 <= w < t.len() && t[w] == ',' && forall|j: int|
                0 <= j < t.len() && j != w ==> t[j] != ',') by {
                assert forall|j: int| 0 <= j < t.len() && j != w implies t[j] != ',' by {
                    assert(t[j] == s@[lo + j]);
                }
            }
            let c = choose|i: int|
                0 <= i < t.len() && t[i] == ',' && forall|j: int|
                    0 <= j < t.len() && j != i ==> t[j] != ',';
            assert(c == w);
        }
        Some(first)
    } else {
        proof {
            if exists|i: int|
                0 <= i < t.len() && t[i] == ',' && forall|j: int|
                    0 <= j < t.len() && j != i ==> t[j] != ',' {
                let c = choose|i: int|
                    0 <= i < t.len() && t[i] == ',' && forall|j: int|
                        0 <= j < t.len() && j != i ==> t[j] != ',';
                if count == 0 {
                    assert(s@[lo + c] == ',');
                } else {
                    assert(t[first - lo] == ',');
                    assert(t[second - lo] == ',');
                }
            }
        }
        None
    }
}

/// Parse a pair of the form `{a,b}` from `s`.
fn parse_pair(s: &str, point: bool) -> (r: Result<(u32, u32), String>)
    ensures
        match spec_parse_pair(s@, point) {
            Ok(p) => r == Ok::<(u32, u32), String>(p),
            Err(m) => r matches Err(e) && e@ == m,
        },
{
    let cs = chars_of(s);
    let n = cs.len();
    assert(cs@.subrange(0, n as int) =~= s@);
    let (a1, b1) = trim_ws_range(cs.as_slice(), 0, n);
    let a2 = trim_front(cs.as_slice(), a1, b1, CharClass::Is('{'));
    let b2 = trim_back(cs.as_slice(), a2, b1, CharClass::Is('}'));
    let ghost t = pair_text(s@);
    assert(t == cs@.subrange(a2 as int, b2 as int));
    match single_comma(cs.as_slice(), a2, b2) {
        None => {
            let text = s.substring_char(a2, b2);
            let mut m = if point {
                "Expected {x,y}, got '".to_owned()
            } else {
                "Expected {w,h}, got '".to_owned()
            };
            m.append(text);
            m.append("'");
            Err(m)
        },
        Some(ci) => {
            let ghost i = ci - a2;
            assert(t.take(i) =~= cs@.subrange(a2 as int, ci as int));
            assert(t.skip(i + 1) =~= cs@.subrange(ci + 1, b2 as int));
            let (a3, b3) = trim_ws_range(cs.as_slice(), a2, ci);
            let first = parse_u32(cs.as_slice(), a3, b3);
            match first {
                Err(e) => Err(int_error_string(e)),
                Ok(x) => {
                    let (a4, b4) = trim_ws_range(cs.as_slice(), ci + 1, b2);
                    match parse_u32(cs.as_slice(), a4, b4) {
                        Err(e) => Err(int_error_string(e)),
                        Ok(y) => Ok((x, y)),
                    }
                },
            }
        },
    }
}

/// Parse a `{w,h}` size pair.
pub fn parse_size(s: &str) -> (r: Result<Size, String>)
    ensures
        match spec_parse_pair(s@, false) {
            Ok((w, h)) => r == Ok::<Size, String>(Size { w, h }),
            Err(m) => r matches Err(e) && e@ == m,
        },
{
    match parse_pair(s, false) {
        Ok((w, h)) => Ok(Size::new(w, h)),
        Err(e) => Err(e),
    }
}

/// Parse a `{x,y}` point pair.
pub fn parse_point(s: &str) -> (r: Result<Point, String>)
    ensures
        match spec_parse_pair(s@, true) {
            Ok((x, y)) => r == Ok::<Point, String>(Point { x, y }),
            Err(m) => r matches Err(e) && e@ == m,
        },
{
    match parse_pair(s, true) {
        Ok((x, y)) => Ok(Point::new(x, y)),
        Err(e) => Err(e),
    }
}

/// The brace depth after the first `k` characters: '{' opens, '}' closes.
pub open spec fn brace_depth(s: Seq<char>, k: int) -> int
    decreases k,
{
    if k <= 0 {
        0
    } else {
        brace_depth(s, k - 1) + (if s[k - 1] == '{' {
            1int
        } else if s[k - 1] == '}' {
            -1int
        } else {
            0int
        })
    }
}

/// Every brace depth along `s` fits an `i32`.
pub open spec fn depths_fit(s: Seq<char>) -> bool {
    forall|k: int| 0 <= k <= s.len() ==> i32::MIN <= #[trigger] brace_depth(s, k) <= i32::MAX
}

/// Scanning a list from character `i`, where the current item started at
/// `start` and `acc` holds the pairs parsed so far: a '}' that closes
/// the outermost brace ends an item, which is parsed as a pair; a ',' at
/// depth zero starts a new item.
pub open spec fn list_scan(
    s: Seq<char>,
    i: int,
    start: int,
    acc: Seq<(u32, u32)>,
    point: bool,
) -> Result<Seq<(u32, u32)>, Seq<char>>
    decreases s.len() - i,
{
    if i < 0 || i >= s.len() {
        Ok(acc)
    } else if s[i] == '}' && brace_depth(s, i + 1) == 0 {
        match spec_parse_pair(s.subrange(start, i + 1), point) {
            Err(m) => Err(m),
            Ok(p) => list_scan(s, i + 1, i + 1, acc.push(p), point),
        }
    } else if s[i] == ',' && brace_depth(s, i + 1) == 0 {
        list_scan(s, i + 1, i + 1, acc, point)
    } else {
        list_scan(s, i + 1, start, acc, point)
    }
}

/// Parse a list of pairs such as `{a,b},{c,d}`; a list without any pair
/// is refused.
pub open spec fn spec_parse_list(s: Seq<char>, point: bool) -> Result<Seq<(u32, u32)>, Seq<char>> {
    match list_scan(s, 0, 0, Seq::empty(), point) {
        Err(m) => Err(m),
        Ok(acc) => if acc.len() == 0 {
            Err(list_message(point, s))
        } else {
            Ok(acc)
        },
    }
}

fn parse_list(s: &str, point: bool) -> (r: Result<Vec<(u32, u32)>, String>)
    requires
        depths_fit(s@),
    ensures
        match spec_parse_list(s@, point) {
            Ok(ps) => r matches Ok(v) && v@ == ps,
            Err(m) => r matches Err(e) && e@ == m,
        },
{
    let cs = chars_of(s);
    let n = cs.len();
    let mut result: Vec<(u32, u32)> = Vec::new();
    let mut depth: i32 = 0;
    let mut start: usize = 0;
    let mut i: usize = 0;
    while i < n
        invariant
            n == s@.len(),
            cs@ == s@,
            depths_fit(s@),
            i <= n,
            start <= i,
            depth == brace_depth(s@, i as int),
            list_scan(s@, 0, 0, Seq::empty(), point) == list_scan(s@, i as int, start as int, result@, point),
        decreases n - i,
    {
        let ch = cs[i];
        assert(i32::MIN <= brace_depth(s@, i + 1) <= i32::MAX);
        if ch == '{' {
            depth = depth + 1;
        } else if ch == '}' {
            depth = depth - 1;
            if depth == 0 {
                let sub = s.substring_char(start, i + 1);
                match parse_pair(sub, point) {
                    Err(e) => {
                        return Err(e);
                    },
                    Ok(p) => {
                        result.push(p);
                    },
                }
                start = i + 1;
            }
        } else if ch == ',' && depth == 0 {
            start = i + 1;
        }
        i = i + 1;
    }
    if result.len() == 0 {
        let mut m = if point {
            "Expected {x,y} list, got '".to_owned()
        } else {
            "Expected {w,h} list, got '".to_owned()
        };
        m.append(s);
        m.append("'");
        Err(m)
    } else {
        Ok(result)
    }
}

/// Parse a list of `{w,h}` size pairs separated by commas.
pub fn parse_size_list(s: &str) -> (r: Result<Vec<Size>, String>)
    requires
        depths_fit(s@),
    ensures
        match spec_parse_list(s@, false) {
            Ok(ps) => r matches Ok(v) && v@.len() == ps.len() && forall|k: int|
                0 <= k < ps.len() ==> #[trigger] v@[k] == (Size { w: ps[k].0, h: ps[k].1 }),
            Err(m) => r matches Err(e) && e@ == m,
        },
{
    match parse_list(s, false) {
        Err(e) => Err(e),
        Ok(ps) => {
            let mut v: Vec<Size> = Vec::new();
            let mut k: usize = 0;
            while k < ps.len()
                invariant
                    k <= ps@.len(),
                    v@.len() == k,
                    forall|j: int| 0 <= j < k ==> #[trigger] v@[j] == (Size { w: ps@[j].0, h: ps@[j].1 }),
                decreases ps@.len() - k,
            {
                let (w, h) = ps[k];
                v.push(Size::new(w, h));
                k = k + 1;
            }
            Ok(v)
        },
    }
}

/// Parse a list of `{x,y}` point pairs separated by commas.
pub fn parse_point_list(s: &str) -> (r: Result<Vec<Point>, String>)
    requires
        depths_fit(s@),
    ensures
        match spec_parse_list(s@, true) {
            Ok(ps) => r matches Ok(v) && v@.len() == ps.len() && forall|k: int|
                0 <= k < ps.len() ==> #[trigger] v@[k] == (Point { x: ps[k].0, y: ps[k].1 }),
            Err(m) => r matches Err(e) && e@ == m,
        },
{
    match parse_list(s, true) {
        Err(e) => Err(e),
        Ok(ps) => {
            let mut v: Vec<Point> = Vec::new();
            let mut k: usize = 0;
            while k < ps.len()
                invariant
                    k <= ps@.len(),
                    v@.len() == k,
                    forall|j: int| 0 <= j < k ==> #[trigger] v@[j] == (Point { x: ps@[j].0, y: ps@[j].1 }),
                decreases ps@.len() - k,
            {
                let (x, y) = ps[k];
                v.push(Point::new(x, y));
                k = k + 1;
            }
            Ok(v)
        },
    }
}

} // verus!
