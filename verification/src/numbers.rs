//! Decimal digits: rendering integers as text, parsing signed integers,
//! and normalizing simple decimal fractions, all at the character level.

use vstd::prelude::*;

verus! {

/// `c` is one of the ten decimal digit characters.
pub open spec fn is_digit_char(c: char) -> bool {
    48 <= c as u32 && c as u32 <= 57
}

/// The numeric value of a digit character.
pub open spec fn digit_val(c: char) -> int {
    c as u32 - 48
}

/// The digit character with value `d`.
pub open spec fn digit_char_of(d: int) -> char {
    if d == 0 {
        '0'
    } else if d == 1 {
        '1'
    } else if d == 2 {
        '2'
    } else if d == 3 {
        '3'
    } else if d == 4 {
        '4'
    } else if d == 5 {
        '5'
    } else if d == 6 {
        '6'
    } else if d == 7 {
        '7'
    } else if d == 8 {
        '8'
    } else {
        '9'
    }
}

/// Every character of `s` is a decimal digit.
pub open spec fn all_digits(s: Seq<char>) -> bool {
    forall|i: int| 0 <= i < s.len() ==> is_digit_char(#[trigger] s[i])
}

/// The canonical decimal rendering of a natural number, without leading
/// zeros (except for `0` itself).
pub open spec fn dec_rep(n: nat) -> Seq<char>
    decreases n,
{
    if n < 10 {
        seq![digit_char_of(n as int)]
    } else {
        dec_rep(n / 10) + seq![digit_char_of((n % 10) as int)]
    }
}

/// The canonical decimal rendering of an integer, with a leading `-` when
/// negative.
pub open spec fn int_rep(v: int) -> Seq<char> {
    if v < 0 {
        seq!['-'] + dec_rep((-v) as nat)
    } else {
        dec_rep(v as nat)
    }
}

/// The value of a string of digits, most significant first.
pub open spec fn seq_val(s: Seq<char>) -> int
    decreases s.len(),
{
    if s.len() == 0 {
        0
    } else {
        seq_val(s.drop_last()) * 10 + digit_val(s.last())
    }
}

/// What `i64` parsing accepts: an optional single `+` or `-` sign followed
/// by at least one digit, valuing inside the `i64` range.
pub open spec fn parse_i64_spec(s: Seq<char>) -> Option<i64> {
    let neg = s.len() > 0 && s[0] == '-';
    let body = if s.len() > 0 && (s[0] == '+' || s[0] == '-') {
        s.drop_first()
    } else {
        s
    };
    if body.len() == 0 || !all_digits(body) {
        Option::None
    } else {
        let v = if neg {
            -seq_val(body)
        } else {
            seq_val(body)
        };
        if i64::MIN <= v && v <= i64::MAX {
            Option::Some(v as i64)
        } else {
            Option::None
        }
    }
}

pub proof fn lemma_seq_val_nonneg(s: Seq<char>)
    requires
        all_digits(s),
    ensures
        seq_val(s) >= 0,
    decreases s.len(),
{
    if s.len() > 0 {
        lemma_seq_val_nonneg(s.drop_last());
    }
}

/// A digit prefix never values more than the whole string.
pub proof fn lemma_seq_val_prefix(s: Seq<char>, k: int)
    requires
        all_digits(s),
        0 <= k <= s.len(),
    ensures
        seq_val(s.take(k)) <= seq_val(s),
    decreases s.len() - k,
{
    if k < s.len() {
        lemma_seq_val_prefix(s, k + 1);
        assert(s.take(k + 1).drop_last() =~= s.take(k));
        assert(s.take(k + 1).last() == s[k]);
        lemma_seq_val_nonneg(s.take(k));
        assert(seq_val(s.take(k + 1)) == seq_val(s.take(k)) * 10 + digit_val(s[k]));
    } else {
        assert(s.take(k) =~= s);
    }
}

/// The digit character with value `d`, as executable code.
pub fn digit_char(d: u64) -> (c: char)
    requires
        d < 10,
    ensures
        c == digit_char_of(d as int),
{
    if d == 0 {
        '0'
    } else if d == 1 {
        '1'
    } else if d == 2 {
        '2'
    } else if d == 3 {
        '3'
    } else if d == 4 {
        '4'
    } else if d == 5 {
        '5'
    } else if d == 6 {
        '6'
    } else if d == 7 {
        '7'
    } else if d == 8 {
        '8'
    } else {
        '9'
    }
}

/// Whether `c` is a decimal digit, as executable code.
pub fn is_digit(c: char) -> (r: bool)
    ensures
        r == is_digit_char(c),
{
    let u = c as u32;
    48 <= u && u <= 57
}

/// Append the canonical decimal rendering of `n` to `out`.
pub fn push_u64_digits(n: u64, out: &mut Vec<char>)
    ensures
        final(out)@ == old(out)@ + dec_rep(n as nat),
    decreases n,
{
    if n < 10 {
        let c = digit_char(n);
        out.push(c);
        proof {
            assert(out@ =~= old(out)@ + dec_rep(n as nat));
        }
    } else {
        push_u64_digits(n / 10, out);
        let c = digit_char(n % 10);
        out.push(c);
        proof {
            assert(out@ =~= old(out)@ + dec_rep(n as nat));
        }
    }
}

/// Append the canonical decimal rendering of `v` to `out`.
pub fn push_i64_digits(v: i64, out: &mut Vec<char>)
    ensures
        final(out)@ == old(out)@ + int_rep(v as int),
{
    if v < 0 {
        out.push('-');
        let wide: i128 = -(v as i128);
        let m: u64 = wide as u64;
        push_u64_digits(m, out);
        proof {
            assert(out@ =~= old(out)@ + int_rep(v as int));
        }
    } else {
        let m: u64 = v as u64;
        push_u64_digits(m, out);
    }
}

/// Parse a signed 64-bit integer from its characters: an optional single
/// sign, then only digits, rejecting values outside the `i64` range.
pub fn parse_i64(chars: &Vec<char>) -> (r: Option<i64>)
    ensures
        r == parse_i64_spec(chars@),
{
    let ghost s = chars@;
    let n = chars.len();
    let mut start: usize = 0;
    let mut neg = false;
    if n > 0 && (chars[0] == '+' || chars[0] == '-') {
        neg = chars[0] == '-';
        start = 1;
    }
    let ghost body = if s.len() > 0 && (s[0] == '+' || s[0] == '-') {
        s.drop_first()
    } else {
        s
    };
    proof {
        assert(body =~= s.skip(start as int));
    }
    if start == n {
        return Option::None;
    }
    // The largest magnitude allowed: 2^63 for a negative number, 2^63 - 1
    // for a positive one.
    let limit: u128 = if neg {
        9223372036854775808
    } else {
        9223372036854775807
    };
    let mut acc: u128 = 0;
    let mut i: usize = start;
    while i < n
        invariant
            start <= i <= n,
            n == s.len(),
            chars@ == s,
            (s.len() > 0 && (s[0] == '+' || s[0] == '-')) <==> start == 1,
            start == 0 || start == 1,
            neg == (s.len() > 0 && s[0] == '-'),
            body == (if s.len() > 0 && (s[0] == '+' || s[0] == '-') {
                s.drop_first()
            } else {
                s
            }),
            body == s.skip(start as int),
            body.len() == n - start,
            all_digits(body.take(i - start)),
            acc == seq_val(body.take(i - start)),
            acc <= limit,
            limit == (if neg {
                9223372036854775808u128
            } else {
                9223372036854775807u128
            }),
        decreases n - i,
    {
        let c = chars[i];
        if !is_digit(c) {
            proof {
                assert(body[i - start] == c);
                assert(!all_digits(body));
            }
            return Option::None;
        }
        proof {
            assert(body[i - start] == c);
        }
        let d: u128 = (c as u32 as u128) - 48;
        acc = acc * 10 + d;
        proof {
            assert(body.take(i + 1 - start).drop_last() =~= body.take(i - start));
            assert(body.take(i + 1 - start).last() == body[i - start]);
        }
        i = i + 1;
        if acc > limit {
            proof {
                if all_digits(body) {
                    lemma_seq_val_prefix(body, i - start);
                    assert(seq_val(body) >= acc);
                }
            }
            return Option::None;
        }
    }
    proof {
        assert(body.take((n - start) as int) =~= body);
        lemma_seq_val_nonneg(body);
    }
    if neg {
        if acc == 9223372036854775808 {
            Option::Some(i64::MIN)
        } else {
            Option::Some(-((acc as u64) as i64))
        }
    } else {
        Option::Some((acc as u64) as i64)
    }
}

/// Length of a leading `+` or `-` sign.
pub open spec fn sign_len(s: Seq<char>) -> int {
    if s.len() > 0 && (s[0] == '+' || s[0] == '-') {
        1
    } else {
        0
    }
}

/// The first index at or after `i` holding a `.`, or the length of `s`.
pub open spec fn first_dot(s: Seq<char>, i: int) -> int
    decreases s.len() - i,
{
    if i < 0 || i >= s.len() {
        s.len() as int
    } else if s[i] == '.' {
        i
    } else {
        first_dot(s, i + 1)
    }
}

/// A simple decimal fraction: an optional sign, one or more digits, a dot,
/// and one or more digits.
pub open spec fn is_simple_decimal(s: Seq<char>) -> bool {
    let b = sign_len(s);
    let d = first_dot(s, b);
    &&& d < s.len()
    &&& d > b
    &&& d + 1 < s.len()
    &&& all_digits(s.subrange(b, d))
    &&& all_digits(s.subrange(d + 1, s.len() as int))
}

/// Leading zeros removed, keeping at least one character.
pub open spec fn strip_leading_zeros(s: Seq<char>) -> Seq<char>
    decreases s.len(),
{
    if s.len() >= 2 && s[0] == '0' {
        strip_leading_zeros(s.drop_first())
    } else {
        s
    }
}

/// Trailing zeros removed, possibly leaving nothing.
pub open spec fn strip_trailing_zeros(s: Seq<char>) -> Seq<char>
    decreases s.len(),
{
    if s.len() >= 1 && s.last() == '0' {
        strip_trailing_zeros(s.drop_last())
    } else {
        s
    }
}

/// The normalized form of a simple decimal: `+` dropped, leading zeros of
/// the integer part removed, trailing zeros of the fraction removed, and
/// the dot removed when nothing of the fraction remains.
pub open spec fn norm_decimal(s: Seq<char>) -> Seq<char> {
    let b = sign_len(s);
    let d = first_dot(s, b);
    let sign: Seq<char> = if s.len() > 0 && s[0] == '-' {
        seq!['-']
    } else {
        Seq::empty()
    };
    let ip = strip_leading_zeros(s.subrange(b, d));
    let fp = strip_trailing_zeros(s.subrange(d + 1, s.len() as int));
    if fp.len() == 0 {
        sign + ip
    } else {
        sign + ip + seq!['.'] + fp
    }
}

/// A ready-made JSON number token: an optional `-`, an integer part
/// without needless leading zeros, and an optional non-empty fraction.
pub open spec fn is_number_text(s: Seq<char>) -> bool {
    let b: int = if s.len() > 0 && s[0] == '-' {
        1
    } else {
        0
    };
    let d = first_dot(s, b);
    &&& s.len() > 0
    &&& d > b
    &&& all_digits(s.subrange(b, d))
    &&& (s[b] == '0' ==> d == b + 1)
    &&& (d == s.len() || (d + 1 < s.len() && all_digits(s.subrange(d + 1, s.len() as int))))
}

proof fn lemma_first_dot_at(s: Seq<char>, b: int, k: int)
    requires
        0 <= b <= k <= s.len(),
        forall|j: int| b <= j < k ==> (#[trigger] s[j]) != '.',
        k == s.len() || s[k] == '.',
    ensures
        first_dot(s, b) == k,
    decreases k - b,
{
    if b < k {
        assert(s[b] != '.');
        lemma_first_dot_at(s, b + 1, k);
    }
}

proof fn lemma_first_dot_min(s: Seq<char>, b: int, k: int)
    requires
        0 <= b <= k <= s.len(),
        forall|j: int| b <= j < k ==> (#[trigger] s[j]) != '.',
    ensures
        first_dot(s, b) >= k,
    decreases k - b,
{
    if b < k {
        assert(s[b] != '.');
        lemma_first_dot_min(s, b + 1, k);
    } else {
        lemma_first_dot_range(s, b);
    }
}

proof fn lemma_first_dot_range(s: Seq<char>, b: int)
    requires
        0 <= b <= s.len(),
    ensures
        b <= first_dot(s, b) <= s.len(),
        first_dot(s, b) < s.len() ==> s[first_dot(s, b)] == '.',
    decreases s.len() - b,
{
    if b < s.len() && s[b] != '.' {
        lemma_first_dot_range(s, b + 1);
    }
}

proof fn lemma_strip_leading(s: Seq<char>, j: int)
    requires
        0 <= j < s.len(),
        forall|m: int| 0 <= m < j ==> (#[trigger] s[m]) == '0',
        s[j] != '0' || j == s.len() - 1,
    ensures
        strip_leading_zeros(s) == s.skip(j),
    decreases j,
{
    if j == 0 {
        assert(s.skip(0) =~= s);
    } else {
        lemma_strip_leading(s.drop_first(), j - 1);
        assert(s.drop_first().skip(j - 1) =~= s.skip(j));
    }
}

proof fn lemma_strip_trailing(s: Seq<char>, k: int)
    requires
        0 <= k <= s.len(),
        forall|m: int| k <= m < s.len() ==> (#[trigger] s[m]) == '0',
        k == 0 || s[k - 1] != '0',
    ensures
        strip_trailing_zeros(s) == s.take(k),
    decreases s.len() - k,
{
    if k == s.len() {
        assert(s.take(k) =~= s);
    } else {
        lemma_strip_trailing(s.drop_last(), k);
        assert(s.drop_last().take(k) =~= s.take(k));
    }
}

/// The index of the first non-digit character at or after `from`, or the
/// length of `v`.
pub fn scan_digits(v: &Vec<char>, from: usize) -> (r: usize)
    requires
        from <= v@.len(),
    ensures
        from <= r <= v@.len(),
        all_digits(v@.subrange(from as int, r as int)),
        r == v@.len() || !is_digit_char(v@[r as int]),
{
    let n = v.len();
    let mut i = from;
    while i < n
        invariant
            from <= i <= n,
            n == v@.len(),
            all_digits(v@.subrange(from as int, i as int)),
        decreases n - i,
    {
        if !is_digit(v[i]) {
            return i;
        }
        proof {
            assert(v@.subrange(from as int, i + 1 as int).drop_last() =~= v@.subrange(
                from as int,
                i as int,
            ));
            assert(v@.subrange(from as int, i + 1 as int).last() == v@[i as int]);
        }
        i = i + 1;
    }
    i
}

proof fn lemma_digits_no_dot(s: Seq<char>, b: int, d: int)
    requires
        0 <= b <= d <= s.len(),
        all_digits(s.subrange(b, d)),
    ensures
        forall|j: int| b <= j < d ==> (#[trigger] s[j]) != '.',
{
    assert forall|j: int| b <= j < d implies (#[trigger] s[j]) != '.' by {
        assert(is_digit_char(s.subrange(b, d)[j - b]));
    }
}

/// Whether `v` already reads as a JSON number token.
pub fn is_number_token(v: &Vec<char>) -> (r: bool)
    ensures
        r == is_number_text(v@),
{
    let ghost s = v@;
    let n = v.len();
    if n == 0 {
        return false;
    }
    let b: usize = if v[0] == '-' {
        1
    } else {
        0
    };
    let d = scan_digits(v, b);
    proof {
        lemma_digits_no_dot(s, b as int, d as int);
        lemma_first_dot_range(s, b as int);
    }
    if d == b {
        proof {
            let fd = first_dot(s, b as int);
            if fd > b {
                assert(s.subrange(b as int, fd)[0] == s[b as int]);
            }
        }
        return false;
    }
    if d < n && !(v[d] == '.') {
        proof {
            let fd = first_dot(s, b as int);
            lemma_first_dot_min(s, b as int, d + 1);
            assert(s.subrange(b as int, fd)[d - b] == s[d as int]);
        }
        return false;
    }
    let leading_ok = !(v[b] == '0') || d == b + 1;
    if d == n {
        proof {
            lemma_first_dot_at(s, b as int, n as int);
        }
        return leading_ok;
    }
    // v[d] is the dot.
    proof {
        lemma_first_dot_at(s, b as int, d as int);
    }
    if !leading_ok {
        return false;
    }
    if d + 1 == n {
        return false;
    }
    let e = scan_digits(v, d + 1);
    if e == n {
        true
    } else {
        proof {
            assert(s.subrange(d + 1 as int, n as int)[e - (d + 1)] == s[e as int]);
        }
        false
    }
}

/// Whether `v` is a simple signed decimal fraction.
pub fn check_simple_decimal(v: &Vec<char>) -> (r: bool)
    ensures
        r == is_simple_decimal(v@),
{
    let ghost s = v@;
    let n = v.len();
    let b: usize = if n > 0 && (v[0] == '+' || v[0] == '-') {
        1
    } else {
        0
    };
    let d = scan_digits(v, b);
    proof {
        lemma_digits_no_dot(s, b as int, d as int);
        lemma_first_dot_range(s, b as int);
    }
    if d == n {
        proof {
            lemma_first_dot_at(s, b as int, n as int);
        }
        return false;
    }
    if !(v[d] == '.') {
        proof {
            let fd = first_dot(s, b as int);
            lemma_first_dot_min(s, b as int, d + 1);
            if fd < s.len() {
                assert(s.subrange(b as int, fd)[d - b] == s[d as int]);
            }
        }
        return false;
    }
    proof {
        lemma_first_dot_at(s, b as int, d as int);
    }
    if d == b {
        return false;
    }
    if d + 1 == n {
        return false;
    }
    let e = scan_digits(v, d + 1);
    if e == n {
        true
    } else {
        proof {
            assert(s.subrange(d + 1 as int, n as int)[e - (d + 1)] == s[e as int]);
        }
        false
    }
}

/// Normalize a simple decimal: drop a `+`, trim leading zeros of the
/// integer part and trailing zeros of the fraction, and drop the dot when
/// the whole fraction was zeros.
pub fn normalize_decimal(v: &Vec<char>) -> (r: Vec<char>)
    requires
        is_simple_decimal(v@),
    ensures
        r@ == norm_decimal(v@),
{
    let ghost s = v@;
    let n = v.len();
    let b: usize = if n > 0 && (v[0] == '+' || v[0] == '-') {
        1
    } else {
        0
    };
    let d = scan_digits(v, b);
    proof {
        lemma_digits_no_dot(s, b as int, d as int);
        lemma_first_dot_range(s, b as int);
        let fd = first_dot(s, b as int);
        if d < fd {
            assert(is_digit_char(s.subrange(b as int, fd)[d - b]));
        }
        if fd < d {
            assert(is_digit_char(s.subrange(b as int, d as int)[fd - b]));
        }
        assert(d == fd);
    }
    // Trim leading zeros of the integer part, keeping its last digit.
    let mut j = b;
    while j + 1 < d && v[j] == '0'
        invariant
            b <= j < d,
            n == s.len(),
            v@ == s,
            d <= n,
            forall|m: int| b <= m < j ==> (#[trigger] s[m]) == '0',
        decreases d - j,
    {
        j = j + 1;
    }
    proof {
        lemma_strip_leading(s.subrange(b as int, d as int), j - b);
        assert(s.subrange(b as int, d as int).skip(j - b) =~= s.subrange(j as int, d as int));
    }
    // Trim trailing zeros of the fraction.
    let mut k = n;
    while k > d + 1 && v[k - 1] == '0'
        invariant
            d + 1 <= k <= n,
            n == s.len(),
            v@ == s,
            d + 1 < n,
            forall|m: int| k <= m < n ==> (#[trigger] s[m]) == '0',
        decreases k,
    {
        k = k - 1;
    }
    proof {
        lemma_strip_trailing(s.subrange(d + 1 as int, n as int), k - (d + 1));
        assert(s.subrange(d + 1 as int, n as int).take(k - (d + 1)) =~= s.subrange(
            d + 1 as int,
            k as int,
        ));
    }
    let ghost sign: Seq<char> = if s.len() > 0 && s[0] == '-' {
        seq!['-']
    } else {
        Seq::empty()
    };
    let mut out: Vec<char> = Vec::new();
    if v[0] == '-' {
        out.push('-');
    }
    proof {
        assert(out@ =~= sign);
    }
    let mut m = j;
    while m < d
        invariant
            j <= m <= d,
            d <= n,
            n == s.len(),
            v@ == s,
            out@ == sign + s.subrange(j as int, m as int),
        decreases d - m,
    {
        let c = v[m];
        out.push(c);
        proof {
            assert(out@ =~= sign + s.subrange(j as int, m + 1 as int));
        }
        m = m + 1;
    }
    if k > d + 1 {
        out.push('.');
        let mut q = d + 1;
        while q < k
            invariant
                d + 1 <= q <= k <= n,
                n == s.len(),
                v@ == s,
                out@ == sign + s.subrange(j as int, d as int) + seq!['.'] + s.subrange(
                    d + 1 as int,
                    q as int,
                ),
            decreases k - q,
        {
            let c = v[q];
            out.push(c);
            proof {
                assert(out@ =~= sign + s.subrange(j as int, d as int) + seq!['.'] + s.subrange(
                    d + 1 as int,
                    q + 1 as int,
                ));
            }
            q = q + 1;
        }
        proof {
            assert(out@ =~= norm_decimal(s));
        }
    } else {
        proof {
            assert(out@ =~= norm_decimal(s));
        }
    }
    out
}

} // verus!
