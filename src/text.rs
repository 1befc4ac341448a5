//! Byte-level text helpers: decimal numbers and whitespace trimming.
use vstd::prelude::*;

verus! {

/// The one-byte whitespace characters: space and tab through carriage return.
pub open spec fn is_ws(b: u8) -> bool {
    b == 0x20u8 || (0x09u8 <= b && b <= 0x0du8)
}

pub open spec fn is_digit(b: u8) -> bool {
    0x30u8 <= b && b <= 0x39u8
}

/// The value of a string of decimal digits (most significant first).
pub open spec fn digits_value(s: Seq<u8>) -> nat
    decreases s.len(),
{
    if s.len() == 0 {
        0
    } else {
        digits_value(s.drop_last()) * 10 + (s.last() - 0x30u8) as nat
    }
}

/// `s` without one leading `+`, if it has one.
pub open spec fn unsigned_body(s: Seq<u8>) -> Seq<u8> {
    if s.len() > 0 && s[0] == 0x2bu8 { s.drop_first() } else { s }
}

pub open spec fn all_digits(s: Seq<u8>) -> bool {
    forall|i: int| 0 <= i < s.len() ==> is_digit(#[trigger] s[i])
}

/// An optional `+` followed by one or more digits whose value fits in `usize`.
pub open spec fn decimal_spec(s: Seq<u8>) -> Option<nat> {
    let body = unsigned_body(s);
    if body.len() > 0 && all_digits(body) && digits_value(body) <= usize::MAX {
        Some(digits_value(body))
    } else {
        None
    }
}

/// The shortest decimal spelling of `n`.
pub open spec fn decimal_repr(n: nat) -> Seq<u8>
    decreases n,
{
    if n < 10 {
        seq![(n + 0x30) as u8]
    } else {
        decimal_repr(n / 10).push((n % 10 + 0x30) as u8)
    }
}

/// Whether three bytes encode a whitespace character of three bytes:
/// U+1680, U+2000 to U+200A, U+2028, U+2029, U+202F, U+205F or U+3000.
pub open spec fn is_ws3(a: u8, b: u8, c: u8) -> bool {
    ||| a == 0xe1u8 && b == 0x9au8 && c == 0x80u8
    ||| a == 0xe2u8 && b == 0x80u8 && ((0x80u8 <= c && c <= 0x8au8) || c == 0xa8u8 || c == 0xa9u8 || c == 0xafu8)
    ||| a == 0xe2u8 && b == 0x81u8 && c == 0x9fu8
    ||| a == 0xe3u8 && b == 0x80u8 && c == 0x80u8
}

/// Whether two bytes encode U+0085 or U+00A0.
pub open spec fn is_ws2(a: u8, b: u8) -> bool {
    a == 0xc2u8 && (b == 0x85u8 || b == 0xa0u8)
}

/// The length of the whitespace character that starts at `i`, or 0 if none does.
pub open spec fn lead_ws_len(s: Seq<u8>, i: int) -> int {
    if 0 <= i < s.len() && is_ws(s[i]) {
        1
    } else if 0 <= i && i + 1 < s.len() && is_ws2(s[i], s[i + 1]) {
        2
    } else if 0 <= i && i + 2 < s.len() && is_ws3(s[i], s[i + 1], s[i + 2]) {
        3
    } else {
        0
    }
}

/// The length of the whitespace character that ends just before `j`, at or
/// after `lo`, or 0 if none does.
pub open spec fn trail_ws_len(s: Seq<u8>, lo: int, j: int) -> int {
    if lo <= j - 1 && j <= s.len() && is_ws(s[j - 1]) {
        1
    } else if lo <= j - 2 && j <= s.len() && is_ws2(s[j - 2], s[j - 1]) {
        2
    } else if lo <= j - 3 && j <= s.len() && is_ws3(s[j - 3], s[j - 2], s[j - 1]) {
        3
    } else {
        0
    }
}

/// Index of the first character that is not whitespace, scanning from `i`.
pub open spec fn ws_start(s: Seq<u8>, i: int) -> int
    decreases s.len() - i,
{
    let k = lead_ws_len(s, i);
    if k == 0 || i >= s.len() {
        i
    } else {
        ws_start(s, i + k)
    }
}

/// One past the last character that is not whitespace, at or after `lo`, scanning down from `j`.
pub open spec fn ws_end(s: Seq<u8>, lo: int, j: int) -> int
    decreases j - lo,
{
    let k = trail_ws_len(s, lo, j);
    if k == 0 || j <= lo {
        j
    } else {
        ws_end(s, lo, j - k)
    }
}

/// `s` without leading and trailing whitespace, as `str::trim` removes it.
pub open spec fn trim_spec(s: Seq<u8>) -> Seq<u8> {
    let a = ws_start(s, 0);
    s.subrange(a, ws_end(s, a, s.len() as int))
}

fn byte_ws(b: u8) -> (r: bool)
    ensures
        r == is_ws(b),
{
    b == 0x20u8 || (0x09u8 <= b && b <= 0x0du8)
}

fn bytes_ws3(a: u8, b: u8, c: u8) -> (r: bool)
    ensures
        r == is_ws3(a, b, c),
{
    (a == 0xe1u8 && b == 0x9au8 && c == 0x80u8)
        || (a == 0xe2u8 && b == 0x80u8 && ((0x80u8 <= c && c <= 0x8au8) || c == 0xa8u8 || c == 0xa9u8 || c == 0xafu8))
        || (a == 0xe2u8 && b == 0x81u8 && c == 0x9fu8)
        || (a == 0xe3u8 && b == 0x80u8 && c == 0x80u8)
}

fn lead_ws(s: &[u8], i: usize) -> (r: usize)
    requires
        i < s@.len(),
    ensures
        r == lead_ws_len(s@, i as int),
{
    let n = s.len();
    if byte_ws(s[i]) {
        1
    } else if n - i > 1 && s[i] == 0xc2u8 && (s[i + 1] == 0x85u8 || s[i + 1] == 0xa0u8) {
        2
    } else if n - i > 2 && bytes_ws3(s[i], s[i + 1], s[i + 2]) {
        3
    } else {
        0
    }
}

fn trail_ws(s: &[u8], lo: usize, j: usize) -> (r: usize)
    requires
        lo < j <= s@.len(),
    ensures
        r == trail_ws_len(s@, lo as int, j as int),
{
    if byte_ws(s[j - 1]) {
        1
    } else if j - lo > 1 && s[j - 2] == 0xc2u8 && (s[j - 1] == 0x85u8 || s[j - 1] == 0xa0u8) {
        2
    } else if j - lo > 2 && bytes_ws3(s[j - 3], s[j - 2], s[j - 1]) {
        3
    } else {
        0
    }
}

/// Removes leading and trailing whitespace.
pub fn trim_ws(s: &[u8]) -> (r: Vec<u8>)
    ensures
        r@ == trim_spec(s@),
{
    let n = s.len();
    let mut a: usize = 0;
    while a < n && lead_ws(s, a) > 0
        invariant
            n == s@.len(),
            a <= n,
            ws_start(s@, a as int) == ws_start(s@, 0),
        decreases n - a,
    {
        a = a + lead_ws(s, a);
    }
    let mut b: usize = n;
    while b > a && trail_ws(s, a, b) > 0
        invariant
            n == s@.len(),
            a <= b <= n,
            a as int == ws_start(s@, 0),
            ws_end(s@, a as int, b as int) == ws_end(s@, a as int, n as int),
        decreases b,
    {
        b = b - trail_ws(s, a, b);
    }
    let mut r: Vec<u8> = Vec::new();
    let mut k: usize = a;
    while k < b
        invariant
            a <= k <= b <= n,
            n == s@.len(),
            r@ == s@.subrange(a as int, k as int),
        decreases b - k,
    {
        r.push(s[k]);
        k = k + 1;
        assert(r@ =~= s@.subrange(a as int, k as int));
    }
    r
}

proof fn lemma_digits_value_prefix_mono(s: Seq<u8>, i: int, j: int)
    requires
        0 <= i <= j <= s.len(),
    ensures
        digits_value(s.subrange(0, i)) <= digits_value(s.subrange(0, j)),
    decreases j - i,
{
    if i < j {
        lemma_digits_value_prefix_mono(s, i, j - 1);
        assert(s.subrange(0, j).drop_last() =~= s.subrange(0, j - 1));
    }
}

/// Parses an unsigned decimal number, as `str::parse::<usize>` does.
pub fn parse_decimal(s: &[u8]) -> (r: Option<usize>)
    ensures
        match decimal_spec(s@) {
            Some(v) => r == Some(v as usize),
            None => r.is_none(),
        },
{
    let n = s.len();
    let start: usize = if n > 0 && s[0] == 0x2bu8 { 1 } else { 0 };
    let ghost body = unsigned_body(s@);
    assert(body =~= s@.subrange(start as int, n as int));
    if start == n {
        return None;
    }
    let mut v: usize = 0;
    let mut i: usize = start;
    while i < n
        invariant
            start <= i <= n,
            n == s@.len(),
            body =~= s@.subrange(start as int, n as int),
            body == unsigned_body(s@),
            forall|k: int| 0 <= k < i - start ==> is_digit(#[trigger] body[k]),
            v as nat == digits_value(body.subrange(0, i - start)),
        decreases n - i,
    {
        let c = s[i];
        if c < 0x30u8 || c > 0x39u8 {
            assert(body[i - start] == c);
            assert(!is_digit(body[i - start]));
            assert(!all_digits(body));
            assert(decimal_spec(s@) is None);
            return None;
        }
        let d = (c - 0x30u8) as usize;
        let ghost pre = body.subrange(0, i - start);
        let ghost next = body.subrange(0, i - start + 1);
        assert(next.drop_last() =~= pre);
        assert(next.last() == c);
        assert(digits_value(next) == digits_value(pre) * 10 + d);
        if v > (usize::MAX - d) / 10 {
            proof {
                assert(v * 10 + d > usize::MAX) by (nonlinear_arith)
                    requires v > (usize::MAX - d) / 10, d <= 9;
                lemma_digits_value_prefix_mono(body, i - start + 1, body.len() as int);
                assert(body.subrange(0, body.len() as int) =~= body);
                assert(digits_value(body) > usize::MAX);
                assert(decimal_spec(s@) is None);
            }
            return None;
        }
        proof {
            assert(v * 10 + d <= usize::MAX) by (nonlinear_arith)
                requires v <= (usize::MAX - d) / 10, d <= 9;
        }
        v = v * 10 + d;
        i = i + 1;
    }
    assert(body.subrange(0, n - start) =~= body);
    Some(v)
}

/// The decimal spelling of `n`, without sign or leading zeros.
pub fn decimal_bytes(n: usize) -> (r: Vec<u8>)
    ensures
        r@ == decimal_repr(n as nat),
    decreases n,
{
    if n < 10 {
        let d = n as u8 + 0x30u8;
        let r = vec![d];
        assert(r@ =~= seq![(n + 0x30) as u8]);
        r
    } else {
        let mut r = decimal_bytes(n / 10);
        r.push((n % 10) as u8 + 0x30u8);
        r
    }
}

} // verus!
