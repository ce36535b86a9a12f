//! Byte and text primitives: decimal numerals, big-endian encodings, UTF-8
//! decoding and ASCII helpers.

use vstd::prelude::*;
use vstd::utf8::*;

verus! {

// ---------------------------------------------------------------------------
// Decimal numerals
// ---------------------------------------------------------------------------

/// The ASCII digit for `d`, which must be below ten.
pub open spec fn digit_char(d: nat) -> char {
    (d + 48) as char
}

/// The decimal numeral of `n`, without leading zeros.
pub open spec fn decimal(n: nat) -> Seq<char>
    decreases n,
{
    if n < 10 {
        seq![digit_char(n)]
    } else {
        decimal(n / 10).push(digit_char(n % 10))
    }
}

/// The decimal numeral of a signed integer, with a leading `-` when negative.
pub open spec fn signed_decimal(n: int) -> Seq<char> {
    if n < 0 {
        seq!['-'] + decimal((-n) as nat)
    } else {
        decimal(n as nat)
    }
}

/// Appends `c` to `s` (`String::push`).
#[verifier::external_body]
pub(crate) fn push_char(s: &mut String, c: char)
    ensures
        final(s)@ == old(s)@.push(c),
{
    s.push(c);
}

/// Appends `t` to `s` (`String::push_str`).
#[verifier::external_body]
pub(crate) fn push_str(s: &mut String, t: &str)
    ensures
        final(s)@ == old(s)@ + t@,
{
    s.push_str(t);
}

/// Appends the characters of `chars`, last first, to `s`.
fn push_reversed(s: &mut String, chars: &Vec<char>)
    ensures
        final(s)@ == old(s)@ + chars@.reverse(),
{
    let mut i = chars.len();
    while i > 0
        invariant
            i <= chars.len(),
            s@ == old(s)@ + chars@.reverse().take(chars.len() - i),
        decreases i,
    {
        i -= 1;
        push_char(s, chars[i]);
        assert(chars@.reverse().take(chars.len() - i) =~= chars@.reverse().take(
            chars.len() - i - 1,
        ).push(chars@[i as int]));
    }
    assert(chars@.reverse().take(chars.len() as int) =~= chars@.reverse());
}

/// Appends the decimal numeral of `n` to `s`.
pub fn push_decimal(s: &mut String, n: u64)
    ensures
        final(s)@ == old(s)@ + decimal(n as nat),
{
    let mut digits: Vec<char> = Vec::new();
    let mut rest = n;
    loop
        invariant_except_break
            decimal(n as nat) == decimal(rest as nat) + digits@.reverse(),
        ensures
            decimal(n as nat) == digits@.reverse(),
        decreases rest,
    {
        let d = rest % 10;
        let ghost before = digits@;
        digits.push(((d as u8) + 48) as char);
        assert(digits@.reverse() =~= seq![digit_char(d as nat)] + before.reverse());
        if rest < 10 {
            assert(decimal(n as nat) =~= digits@.reverse());
            break;
        }
        rest = rest / 10;
    }
    push_reversed(s, &digits);
}

/// Appends the decimal numeral of the signed `n` to `s`.
pub fn push_signed_decimal(s: &mut String, n: i64)
    ensures
        final(s)@ == old(s)@ + signed_decimal(n as int),
{
    if n < 0 {
        push_char(s, '-');
        let magnitude: u64 = if n == i64::MIN {
            9223372036854775808u64
        } else {
            (-n) as u64
        };
        push_decimal(s, magnitude);
        assert(s@ =~= old(s)@ + signed_decimal(n as int));
    } else {
        push_decimal(s, n as u64);
    }
}

/// The decimal numeral of `n`.
pub fn u64_to_decimal(n: u64) -> (s: String)
    ensures
        s@ == decimal(n as nat),
{
    let mut s = String::new();
    push_decimal(&mut s, n);
    assert(s@ =~= decimal(n as nat));
    s
}

// ---------------------------------------------------------------------------
// ASCII digits
// ---------------------------------------------------------------------------

pub open spec fn is_digit(b: u8) -> bool {
    48 <= b <= 57
}

pub open spec fn digit_value(b: u8) -> nat {
    (b - 48) as nat
}

pub open spec fn all_digits(s: Seq<u8>) -> bool {
    forall|i: int| 0 <= i < s.len() ==> #[trigger] is_digit(s[i])
}

/// The value of a numeral written in decimal ASCII digits.
pub open spec fn digits_value(s: Seq<u8>) -> nat
    decreases s.len(),
{
    if s.len() == 0 {
        0
    } else {
        digits_value(s.drop_last()) * 10 + digit_value(s.last())
    }
}

/// The number of ASCII digits that `s` begins with.
pub open spec fn digit_run(s: Seq<u8>) -> nat
    decreases s.len(),
{
    if s.len() > 0 && is_digit(s[0]) {
        1 + digit_run(s.drop_first())
    } else {
        0
    }
}

pub proof fn lemma_digit_run_bounds(s: Seq<u8>)
    ensures
        digit_run(s) <= s.len(),
        all_digits(s.take(digit_run(s) as int)),
        digit_run(s) < s.len() ==> !is_digit(s[digit_run(s) as int]),
    decreases s.len(),
{
    if s.len() > 0 && is_digit(s[0]) {
        lemma_digit_run_bounds(s.drop_first());
        let k = digit_run(s.drop_first()) as int;
        assert forall|i: int| 0 <= i < k + 1 implies #[trigger] is_digit(s.take(k + 1)[i]) by {
            if i > 0 {
                assert(s.take(k + 1)[i] == s.drop_first().take(k)[i - 1]);
            }
        }
    }
}

/// The number of ASCII digits at the start of `s`.
pub fn leading_digits(s: &[u8]) -> (n: usize)
    ensures
        n == digit_run(s@),
        all_digits(s@.take(n as int)),
        n <= s@.len(),
{
    let mut i: usize = 0;
    proof {
        assert(s@.skip(0) =~= s@);
    }
    while i < s.len() && 48 <= s[i] && s[i] <= 57
        invariant
            i <= s.len(),
            digit_run(s@) == i + digit_run(s@.skip(i as int)),
        decreases s.len() - i,
    {
        assert(s@.skip(i as int).drop_first() =~= s@.skip(i + 1));
        i += 1;
    }
    proof {
        lemma_digit_run_bounds(s@);
    }
    i
}

proof fn lemma_digits_value_extend(s: Seq<u8>, i: int)
    requires
        0 <= i < s.len(),
    ensures
        digits_value(s.take(i + 1)) == digits_value(s.take(i)) * 10 + digit_value(s[i]),
{
    assert(s.take(i + 1).drop_last() =~= s.take(i));
}

/// The value of the decimal numeral `s` when it is at most `cap`.
pub fn digits_at_most(s: &[u8], cap: u64) -> (r: Option<u64>)
    requires
        all_digits(s@),
        cap >= 9,
    ensures
        r matches Some(v) ==> v == digits_value(s@) && v <= cap,
        r is None ==> digits_value(s@) > cap,
{
    let mut value: u64 = 0;
    let mut i: usize = 0;
    while i < s.len()
        invariant
            i <= s.len(),
            all_digits(s@),
            cap >= 9,
            value == digits_value(s@.take(i as int)),
            value <= cap,
        decreases s.len() - i,
    {
        proof {
            lemma_digits_value_extend(s@, i as int);
        }
        assert(is_digit(s@[i as int]));
        let d: u64 = (s[i] - 48) as u64;
        if value > (cap - d) / 10 {
            proof {
                lemma_digits_value_monotone(s@, i + 1);
                assert(value * 10 + d > cap) by (nonlinear_arith)
                    requires
                        value > (cap - d) / 10,
                        d <= 9,
                        cap >= 9,
                ;
            }
            return None;
        }
        assert(value * 10 + d <= cap) by (nonlinear_arith)
            requires
                value <= (cap - d) / 10,
                d <= 9,
                cap >= 9,
        ;
        value = value * 10 + d;
        i += 1;
    }
    assert(s@.take(s.len() as int) =~= s@);
    Some(value)
}

/// A numeral only grows when digits are appended to it.
proof fn lemma_digits_value_monotone(s: Seq<u8>, i: int)
    requires
        0 <= i <= s.len(),
    ensures
        digits_value(s.take(i)) <= digits_value(s),
    decreases s.len() - i,
{
    if i < s.len() {
        lemma_digits_value_monotone(s, i + 1);
        lemma_digits_value_extend(s, i);
    } else {
        assert(s.take(i) =~= s);
    }
}

/// What `str::parse::<i64>` gives for the ASCII text `s`: an optional sign,
/// then at least one digit, the value lying in the range of `i64`.
pub open spec fn parse_i64(s: Seq<u8>) -> Option<int> {
    let negative = s.len() > 0 && s[0] == 45u8;
    let signed = s.len() > 0 && (s[0] == 45u8 || s[0] == 43u8);
    let body = if signed { s.drop_first() } else { s };
    if body.len() == 0 || !all_digits(body) {
        None
    } else {
        let v: int = if negative { -digits_value(body) } else { digits_value(body) as int };
        if i64::MIN <= v <= i64::MAX {
            Some(v)
        } else {
            None
        }
    }
}

/// Parses a signed decimal numeral, as `str::parse::<i64>` does.
pub fn parse_signed(s: &[u8]) -> (r: Option<i64>)
    ensures
        r matches Some(v) ==> parse_i64(s@) == Some(v as int),
        r is None ==> parse_i64(s@) is None,
{
    if s.len() == 0 {
        return None;
    }
    let negative = s[0] == 45u8;
    let signed = s[0] == 45u8 || s[0] == 43u8;
    let body: &[u8] = if signed { &s[1..s.len()] } else { s };
    assert(signed ==> body@ =~= s@.drop_first());
    let n = leading_digits(body);
    if body.len() == 0 || n != body.len() {
        proof {
            if body.len() > 0 {
                lemma_digit_run_bounds(body@);
                assert(!is_digit(body@[n as int]));
            }
        }
        return None;
    }
    assert(body@.take(n as int) =~= body@);
    if negative {
        match digits_at_most(body, 9223372036854775808u64) {
            Some(v) => {
                if v == 9223372036854775808u64 {
                    Some(i64::MIN)
                } else {
                    Some(-(v as i64))
                }
            },
            None => None,
        }
    } else {
        match digits_at_most(body, 9223372036854775807u64) {
            Some(v) => Some(v as i64),
            None => None,
        }
    }
}

/// The nanoseconds in `digits` seconds, when they fit in an `i64`.
pub open spec fn seconds_to_ns(digits: Seq<u8>) -> Option<i64> {
    if digits_value(digits) * 1_000_000_000 <= i64::MAX {
        Some((digits_value(digits) * 1_000_000_000) as i64)
    } else {
        None
    }
}

/// The nanoseconds in the decimal number of seconds `digits`, when they fit in an `i64`.
pub fn seconds_to_nanoseconds(digits: &[u8]) -> (r: Option<i64>)
    requires
        all_digits(digits@),
    ensures
        r == seconds_to_ns(digits@),
{
    match digits_at_most(digits, 9223372036u64) {
        Some(v) => {
            assert(v * 1_000_000_000 <= i64::MAX) by (nonlinear_arith)
                requires
                    v <= 9223372036,
            ;
            Some((v as i64) * 1_000_000_000i64)
        },
        None => {
            assert(digits_value(digits@) * 1_000_000_000 > i64::MAX) by (nonlinear_arith)
                requires
                    digits_value(digits@) > 9223372036,
            ;
            None
        },
    }
}

// ---------------------------------------------------------------------------
// ASCII whitespace and prefixes
// ---------------------------------------------------------------------------

/// `u8::is_ascii_whitespace`: space, tab, line feed, form feed or carriage return.
pub open spec fn is_ascii_whitespace(b: u8) -> bool {
    b == 32u8 || b == 9u8 || b == 10u8 || b == 12u8 || b == 13u8
}

/// The number of ASCII whitespace bytes that `s` begins with.
pub open spec fn whitespace_run(s: Seq<u8>) -> nat
    decreases s.len(),
{
    if s.len() > 0 && is_ascii_whitespace(s[0]) {
        1 + whitespace_run(s.drop_first())
    } else {
        0
    }
}

/// `s` without its leading ASCII whitespace (`<[u8]>::trim_ascii_start`).
pub open spec fn trim_start(s: Seq<u8>) -> Seq<u8> {
    s.skip(whitespace_run(s) as int)
}

proof fn lemma_whitespace_run_bound(s: Seq<u8>)
    ensures
        whitespace_run(s) <= s.len(),
    decreases s.len(),
{
    if s.len() > 0 && is_ascii_whitespace(s[0]) {
        lemma_whitespace_run_bound(s.drop_first());
    }
}

/// `s` without its leading ASCII whitespace.
pub fn trim_ascii_start(s: &[u8]) -> (r: &[u8])
    ensures
        r@ == trim_start(s@),
{
    let mut i: usize = 0;
    assert(s@.skip(0) =~= s@);
    while i < s.len() && (s[i] == 32u8 || s[i] == 9u8 || s[i] == 10u8 || s[i] == 12u8 || s[i]
        == 13u8)
        invariant
            i <= s.len(),
            whitespace_run(s@) == i + whitespace_run(s@.skip(i as int)),
        decreases s.len() - i,
    {
        assert(s@.skip(i as int).drop_first() =~= s@.skip(i + 1));
        i += 1;
    }
    proof {
        lemma_whitespace_run_bound(s@);
    }
    &s[i..s.len()]
}

/// Whether `s` begins with `prefix`.
pub open spec fn has_prefix(s: Seq<u8>, prefix: Seq<u8>) -> bool {
    prefix.len() <= s.len() && s.take(prefix.len() as int) == prefix
}

/// `s` without `prefix` when it begins with it (`<[u8]>::strip_prefix`).
pub fn strip_prefix<'a>(s: &'a [u8], prefix: &[u8]) -> (r: Option<&'a [u8]>)
    ensures
        r is Some <==> has_prefix(s@, prefix@),
        r matches Some(rest) ==> rest@ == s@.skip(prefix@.len() as int),
{
    if prefix.len() > s.len() {
        return None;
    }
    let mut i: usize = 0;
    while i < prefix.len()
        invariant
            i <= prefix.len() <= s.len(),
            forall|j: int| 0 <= j < i ==> s@[j] == prefix@[j],
        decreases prefix.len() - i,
    {
        if s[i] != prefix[i] {
            assert(s@.take(prefix@.len() as int)[i as int] != prefix@[i as int]);
            return None;
        }
        i += 1;
    }
    assert(s@.take(prefix@.len() as int) =~= prefix@);
    Some(&s[prefix.len()..s.len()])
}

// ---------------------------------------------------------------------------
// Big-endian encodings
// ---------------------------------------------------------------------------

/// The `width` low bytes of `n`, most significant first.
pub open spec fn be_bytes(n: nat, width: nat) -> Seq<u8>
    decreases width,
{
    if width == 0 {
        seq![]
    } else {
        be_bytes(n / 256, (width - 1) as nat).push((n % 256) as u8)
    }
}

/// `i64::to_be_bytes`: the two's complement bytes of `v`, most significant first.
pub open spec fn i64_be_bytes(v: int) -> Seq<u8> {
    be_bytes(
        if v >= 0 {
            v as nat
        } else {
            (v + 0x1_0000_0000_0000_0000) as nat
        },
        8,
    )
}

/// Appends the eight big-endian bytes of `n` to `out`.
pub fn push_be_u64(out: &mut Vec<u8>, n: u64)
    ensures
        final(out)@ == old(out)@ + be_bytes(n as nat, 8),
{
    let mut rev: Vec<u8> = Vec::new();
    let mut rest = n;
    let mut k: usize = 0;
    while k < 8
        invariant
            k <= 8,
            be_bytes(n as nat, 8) == be_bytes(rest as nat, (8 - k) as nat) + rev@.reverse(),
        decreases 8 - k,
    {
        let ghost before = rev@;
        rev.push((rest % 256) as u8);
        assert(rev@.reverse() =~= seq![(rest % 256) as u8] + before.reverse());
        assert(be_bytes(rest as nat, (8 - k) as nat) == be_bytes(
            (rest / 256) as nat,
            (8 - k - 1) as nat,
        ).push((rest % 256) as u8));
        assert(be_bytes(rest as nat, (8 - k) as nat) + before.reverse() =~= be_bytes(
            (rest / 256) as nat,
            (8 - k - 1) as nat,
        ) + rev@.reverse());
        rest = rest / 256;
        k += 1;
    }
    assert(be_bytes(rest as nat, 0) =~= Seq::<u8>::empty());
    assert(be_bytes(n as nat, 8) =~= rev@.reverse());
    let mut i = rev.len();
    while i > 0
        invariant
            i <= rev.len(),
            out@ == old(out)@ + rev@.reverse().take(rev.len() - i),
        decreases i,
    {
        i -= 1;
        out.push(rev[i]);
        assert(rev@.reverse().take(rev.len() - i) =~= rev@.reverse().take(
            rev.len() - i - 1,
        ).push(rev@[i as int]));
    }
    assert(rev@.reverse().take(rev.len() as int) =~= rev@.reverse());
}

/// `i64::to_be_bytes`.
pub fn i64_to_be_bytes(v: i64) -> (r: Vec<u8>)
    ensures
        r@ == i64_be_bytes(v as int),
{
    let u: u64 = if v >= 0 {
        v as u64
    } else {
        ((v + 9223372036854775807i64) + 1) as u64 + 9223372036854775808u64
    };
    let mut out: Vec<u8> = Vec::new();
    push_be_u64(&mut out, u);
    assert(out@ =~= i64_be_bytes(v as int));
    out
}

/// Distinct numbers below `256^width` have distinct encodings.
pub proof fn lemma_be_bytes_injective(n: nat, m: nat, width: nat)
    requires
        be_bytes(n, width) == be_bytes(m, width),
        n < pow256(width),
        m < pow256(width),
    ensures
        n == m,
    decreases width,
{
    if width == 0 {
    } else {
        let w1 = (width - 1) as nat;
        assert(be_bytes(n, width).last() == (n % 256) as u8);
        assert(be_bytes(n, width).drop_last() =~= be_bytes(n / 256, w1));
        assert(be_bytes(m, width).drop_last() =~= be_bytes(m / 256, w1));
        assert(n / 256 < pow256(w1)) by (nonlinear_arith)
            requires
                n < pow256(w1) * 256,
        ;
        assert(m / 256 < pow256(w1)) by (nonlinear_arith)
            requires
                m < pow256(w1) * 256,
        ;
        lemma_be_bytes_injective(n / 256, m / 256, w1);
        assert(n == (n / 256) * 256 + n % 256) by (nonlinear_arith);
        assert(m == (m / 256) * 256 + m % 256) by (nonlinear_arith);
    }
}

pub open spec fn pow256(width: nat) -> nat
    decreases width,
{
    if width == 0 {
        1
    } else {
        pow256((width - 1) as nat) * 256
    }
}

pub proof fn lemma_be_bytes_len(n: nat, width: nat)
    ensures
        be_bytes(n, width).len() == width,
    decreases width,
{
    if width > 0 {
        lemma_be_bytes_len(n / 256, (width - 1) as nat);
    }
}

// ---------------------------------------------------------------------------
// UTF-8
// ---------------------------------------------------------------------------

/// What `String::from_utf8_lossy` makes of `bytes`: the decoded text, with
/// each invalid sequence replaced by U+FFFD.
pub uninterp spec fn lossy_utf8(bytes: Seq<u8>) -> Seq<char>;

/// `String::from_utf8_lossy`, as an owned `String`.
///
/// The standard library documents that valid UTF-8 is returned as it is
/// decoded; what invalid sequences become is named by `lossy_utf8` and not
/// otherwise stated.
#[verifier::external_body]
pub(crate) fn decode_lossy(bytes: &[u8]) -> (s: String)
    ensures
        s@ == lossy_utf8(bytes@),
        valid_utf8(bytes@) ==> s@ == decode_utf8(bytes@),
{
    String::from_utf8_lossy(bytes).into_owned()
}

/// `std::str::from_utf8`: the text encoded by `bytes`, when they are valid UTF-8.
#[verifier::external_body]
pub(crate) fn decode_utf8_exact(bytes: &[u8]) -> (r: Option<&str>)
    ensures
        r is Some <==> valid_utf8(bytes@),
        r matches Some(s) ==> s@ == decode_utf8(bytes@),
{
    std::str::from_utf8(bytes).ok()
}

/// The UTF-8 bytes of `s` (`str::as_bytes`, copied).
pub fn utf8_bytes(s: &str) -> (r: Vec<u8>)
    ensures
        r@ == encode_utf8(s@),
{
    let bytes = s.as_bytes();
    let mut out: Vec<u8> = Vec::new();
    out.extend_from_slice(bytes);
    assert(out@ =~= bytes@);
    out
}

} // verus!
