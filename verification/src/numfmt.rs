//! Integer notations: reading unsigned numbers in radix 10 or 16 (what
//! `str::parse::<u64>` and `u32::from_str_radix` accept), writing decimal
//! numbers, zero-padded episode numbers and upper-case hexadecimal bytes,
//! and the UTF-8 encoding of a character.
use vstd::prelude::*;
use vstd::utf8::*;

verus! {

/// The value of `c` as a digit in any radix up to 36, or -1.
pub open spec fn digit_value(c: char) -> int {
    if '0' <= c <= '9' {
        c as int - '0' as int
    } else if 'a' <= c <= 'z' {
        c as int - 'a' as int + 10
    } else if 'A' <= c <= 'Z' {
        c as int - 'A' as int + 10
    } else {
        -1
    }
}

/// `c` is a digit in the given radix.
pub open spec fn is_digit_in(c: char, radix: int) -> bool {
    0 <= digit_value(c) < radix
}

/// The value of a sequence of digits, most significant first.
pub open spec fn digits_value(s: Seq<char>, radix: int) -> int
    decreases s.len(),
{
    if s.len() == 0 {
        0
    } else {
        digits_value(s.drop_last(), radix) * radix + digit_value(s.last())
    }
}

/// The digits that follow an optional leading `+`.
pub open spec fn unsigned_body(s: Seq<char>) -> Seq<char> {
    if s.len() > 0 && s[0] == '+' {
        s.drop_first()
    } else {
        s
    }
}

/// The number that `s` spells in `radix`, when it is at most `max`: an
/// optional `+` followed by at least one digit, and nothing else.
pub open spec fn parse_unsigned(s: Seq<char>, radix: int, max: int) -> Option<int> {
    let body = unsigned_body(s);
    if body.len() == 0 || !(forall|i: int| 0 <= i < body.len() ==> is_digit_in(#[trigger] body[i], radix))
        || digits_value(body, radix) > max {
        None
    } else {
        Some(digits_value(body, radix))
    }
}

proof fn lemma_digits_value_nonneg(s: Seq<char>, radix: int)
    requires
        radix >= 1,
        forall|i: int| 0 <= i < s.len() ==> is_digit_in(#[trigger] s[i], radix),
    ensures
        digits_value(s, radix) >= 0,
    decreases s.len(),
{
    if s.len() > 0 {
        assert forall|i: int| 0 <= i < s.drop_last().len() implies is_digit_in(
            #[trigger] s.drop_last()[i],
            radix,
        ) by {
            assert(s.drop_last()[i] == s[i]);
        }
        lemma_digits_value_nonneg(s.drop_last(), radix);
        let v = digits_value(s.drop_last(), radix);
        assert(v * radix >= 0) by (nonlinear_arith)
            requires
                v >= 0,
                radix >= 1,
        ;
        assert(is_digit_in(s[s.len() - 1], radix));
    }
}

/// A number read by `parse_unsigned` is not negative.
pub proof fn lemma_parse_unsigned_nonneg(s: Seq<char>, radix: int, max: int)
    requires
        radix >= 1,
    ensures
        parse_unsigned(s, radix, max) matches Some(v) ==> v >= 0,
{
    let body = unsigned_body(s);
    if parse_unsigned(s, radix, max) is Some {
        lemma_digits_value_nonneg(body, radix);
    }
}

proof fn lemma_digits_value_monotone(s: Seq<char>, radix: int, k: int)
    requires
        radix >= 1,
        0 <= k <= s.len(),
        forall|i: int| 0 <= i < s.len() ==> is_digit_in(#[trigger] s[i], radix),
    ensures
        digits_value(s.subrange(0, k), radix) <= digits_value(s, radix),
    decreases s.len() - k,
{
    if k == s.len() {
        assert(s.subrange(0, k) =~= s);
    } else {
        let t = s.subrange(0, k + 1);
        assert forall|i: int| 0 <= i < t.len() implies is_digit_in(#[trigger] t[i], radix) by {
            assert(t[i] == s[i]);
        }
        lemma_digits_value_monotone(s, radix, k + 1);
        assert(t.drop_last() =~= s.subrange(0, k));
        assert forall|i: int| 0 <= i < t.drop_last().len() implies is_digit_in(
            #[trigger] t.drop_last()[i],
            radix,
        ) by {
            assert(t.drop_last()[i] == s[i]);
        }
        lemma_digits_value_nonneg(t.drop_last(), radix);
        let v = digits_value(t.drop_last(), radix);
        assert(v * radix >= v) by (nonlinear_arith)
            requires
                v >= 0,
                radix >= 1,
        ;
        assert(is_digit_in(t[k], radix));
    }
}

fn digit_value_exec(c: char) -> (r: i64)
    ensures
        r == digit_value(c),
{
    if '0' <= c && c <= '9' {
        (c as u32 - '0' as u32) as i64
    } else if 'a' <= c && c <= 'z' {
        (c as u32 - 'a' as u32 + 10) as i64
    } else if 'A' <= c && c <= 'Z' {
        (c as u32 - 'A' as u32 + 10) as i64
    } else {
        -1
    }
}

/// Reads `s` as an unsigned number in `radix` that must not exceed `max`.
pub fn parse_unsigned_exec(s: &Vec<char>, radix: u64, max: u64) -> (r: Option<u64>)
    requires
        2 <= radix <= 36,
    ensures
        r matches Some(v) ==> parse_unsigned(s@, radix as int, max as int) == Some(v as int),
        r is None ==> parse_unsigned(s@, radix as int, max as int) is None,
{
    let start: usize = if s.len() > 0 && s[0] == '+' {
        1
    } else {
        0
    };
    let ghost body = unsigned_body(s@);
    assert(body =~= s@.subrange(start as int, s@.len() as int));
    if start == s.len() {
        return None;
    }
    let mut acc: u64 = 0;
    let mut i: usize = start;
    assert(body.subrange(0, 0) =~= Seq::<char>::empty());
    while i < s.len()
        invariant
            start <= i <= s@.len(),
            body == s@.subrange(start as int, s@.len() as int),
            body == unsigned_body(s@),
            2 <= radix <= 36,
            acc <= max,
            forall|j: int| 0 <= j < i - start ==> is_digit_in(#[trigger] body[j], radix as int),
            acc as int == digits_value(body.subrange(0, i - start), radix as int),
        decreases s@.len() - i,
    {
        let d = digit_value_exec(s[i]);
        assert(body[i - start] == s@[i as int]);
        if d < 0 || d >= radix as i64 {
            assert(!is_digit_in(body[i - start], radix as int));
            return None;
        }
        let ghost pre = body.subrange(0, i - start);
        let ghost next = body.subrange(0, i - start + 1);
        assert(next.drop_last() =~= pre);
        assert(next.last() == s@[i as int]);
        assert(digits_value(next, radix as int) == digits_value(pre, radix as int) * radix + d);
        let m = acc.checked_mul(radix);
        if m.is_none() {
            proof {
                assert forall|j: int| 0 <= j < next.len() implies is_digit_in(
                    #[trigger] next[j],
                    radix as int,
                ) by {
                    assert(next[j] == body[j]);
                }
                lemma_digits_value_nonneg(next, radix as int);
                assert(acc as int * radix as int > u64::MAX);
                assert(digits_value(next, radix as int) > max);
                if forall|j: int| 0 <= j < body.len() ==> is_digit_in(#[trigger] body[j], radix as int) {
                    lemma_digits_value_monotone(body, radix as int, i - start + 1);
                }
            }
            return None;
        }
        let m = m.unwrap();
        let v = m.checked_add(d as u64);
        if v.is_none() || v.unwrap() > max {
            proof {
                if forall|j: int| 0 <= j < body.len() ==> is_digit_in(#[trigger] body[j], radix as int) {
                    lemma_digits_value_monotone(body, radix as int, i - start + 1);
                }
            }
            return None;
        }
        acc = v.unwrap();
        i = i + 1;
    }
    assert(body.subrange(0, body.len() as int) =~= body);
    Some(acc)
}

/// The character that spells the digit `d` (0 to 15), upper case for ten
/// and above.
pub open spec fn digit_char(d: int) -> char {
    if d == 0 { '0' } else if d == 1 { '1' } else if d == 2 { '2' } else if d == 3 { '3' }
    else if d == 4 { '4' } else if d == 5 { '5' } else if d == 6 { '6' } else if d == 7 { '7' }
    else if d == 8 { '8' } else if d == 9 { '9' } else if d == 10 { 'A' } else if d == 11 { 'B' }
    else if d == 12 { 'C' } else if d == 13 { 'D' } else if d == 14 { 'E' } else { 'F' }
}

pub fn digit_char_exec(d: u64) -> (c: char)
    requires
        d < 16,
    ensures
        c == digit_char(d as int),
{
    if d == 0 { '0' } else if d == 1 { '1' } else if d == 2 { '2' } else if d == 3 { '3' }
    else if d == 4 { '4' } else if d == 5 { '5' } else if d == 6 { '6' } else if d == 7 { '7' }
    else if d == 8 { '8' } else if d == 9 { '9' } else if d == 10 { 'A' } else if d == 11 { 'B' }
    else if d == 12 { 'C' } else if d == 13 { 'D' } else if d == 14 { 'E' } else { 'F' }
}

/// The decimal notation of `n`, without sign or leading zeros.
pub open spec fn decimal(n: nat) -> Seq<char>
    decreases n,
{
    if n < 10 {
        seq![digit_char(n as int)]
    } else {
        decimal(n / 10).push(digit_char((n % 10) as int))
    }
}

/// A digit character reads back as its digit; below ten it is an ASCII
/// decimal digit.
pub proof fn lemma_digit_char_value(k: int)
    requires
        0 <= k < 16,
    ensures
        k < 10 ==> '0' <= digit_char(k) <= '9',
        digit_value(digit_char(k)) == k,
{
}

/// The decimal notation of `n` is a non-empty run of ASCII digits that reads
/// back as `n`.
pub proof fn lemma_decimal_reads_back(n: nat)
    ensures
        decimal(n).len() >= 1,
        forall|i: int| 0 <= i < decimal(n).len() ==> '0' <= #[trigger] decimal(n)[i] <= '9',
        digits_value(decimal(n), 10) == n,
    decreases n,
{
    if n >= 10 {
        lemma_decimal_reads_back(n / 10);
        let d = decimal(n / 10);
        let t = d.push(digit_char((n % 10) as int));
        assert forall|i: int| 0 <= i < t.len() implies '0' <= #[trigger] t[i] <= '9' by {
            if i < d.len() {
                assert(t[i] == d[i]);
            }
        }
        let k = (n % 10) as int;
        lemma_digit_char_value(k);
        assert(decimal(n) == t);
        assert(t.drop_last() =~= d);
        assert(t.last() == digit_char(k));
        assert(digits_value(t, 10) == digits_value(d, 10) * 10 + digit_value(t.last()));
        assert((n / 10) * 10 + n % 10 == n) by (nonlinear_arith);
    } else {
        lemma_digit_char_value(n as int);
        let t = seq![digit_char(n as int)];
        assert(decimal(n) == t);
        assert(t.drop_last() =~= Seq::<char>::empty());
        assert(digits_value(t, 10) == digits_value(t.drop_last(), 10) * 10 + digit_value(t.last()));
    }
}

/// A decimal notation parses back as its number.
pub proof fn lemma_parse_decimal(n: nat, max: int)
    requires
        n <= max,
    ensures
        parse_unsigned(decimal(n), 10, max) == Some(n as int),
{
    lemma_decimal_reads_back(n);
    let d = decimal(n);
    assert(unsigned_body(d) == d);
    assert forall|i: int| 0 <= i < d.len() implies is_digit_in(#[trigger] d[i], 10) by {
        assert('0' <= d[i] <= '9');
    }
}

/// The decimal notation of `n` (`u64::to_string`).
pub fn decimal_exec(n: u64) -> (r: Vec<char>)
    ensures
        r@ == decimal(n as nat),
{
    let mut m = n;
    let mut acc: Vec<char> = Vec::new();
    assert(decimal(n as nat) =~= decimal(m as nat) + acc@);
    loop
        invariant
            decimal(n as nat) == decimal(m as nat) + acc@,
        decreases m,
    {
        let c = digit_char_exec(m % 10);
        let ghost prev = acc@;
        acc.insert(0, c);
        assert(acc@ =~= seq![c] + prev);
        if m < 10 {
            assert(decimal(m as nat) =~= seq![c]);
            return acc;
        }
        assert(decimal(m as nat) + prev =~= decimal((m / 10) as nat) + acc@);
        m = m / 10;
    }
}

/// `n` written with at least two digits, a minus sign first when it is
/// negative (what `format!("{n:02}")` writes for an `i32`).
pub open spec fn padded2(n: int) -> Seq<char> {
    if n < 0 {
        seq!['-'] + decimal((-n) as nat)
    } else if n < 10 {
        seq!['0'] + decimal(n as nat)
    } else {
        decimal(n as nat)
    }
}

pub fn padded2_exec(n: i32) -> (r: Vec<char>)
    ensures
        r@ == padded2(n as int),
{
    if n < 0 {
        let mag: u64 = (0i64 - n as i64) as u64;
        let d = decimal_exec(mag);
        let mut r: Vec<char> = Vec::new();
        r.push('-');
        crate::text::push_all(&mut r, &d);
        r
    } else {
        let d = decimal_exec(n as u64);
        let mut r: Vec<char> = Vec::new();
        if n < 10 {
            r.push('0');
        }
        crate::text::push_all(&mut r, &d);
        r
    }
}

/// The UTF-8 encoding of `c` (`char::encode_utf8`).
pub fn utf8_encode_char(c: char) -> (r: Vec<u8>)
    ensures
        r@ == encode_utf8(seq![c]),
        1 <= r@.len() <= 4,
{
    let v = c as u32;
    proof {
        assert(seq![c].drop_first() =~= Seq::<char>::empty());
        assert(encode_utf8(seq![c]) =~= encode_scalar(v) + encode_utf8(Seq::<char>::empty()));
    }
    let mut r: Vec<u8> = Vec::new();
    if v <= 0x7F {
        r.push((v & 0x7F) as u8);
    } else if v <= 0x7FF {
        r.push(0xC0 | ((v >> 6) & 0x1F) as u8);
        r.push(0x80 | (v & 0x3F) as u8);
    } else if v <= 0xFFFF {
        r.push(0xE0 | ((v >> 12) & 0x0F) as u8);
        r.push(0x80 | ((v >> 6) & 0x3F) as u8);
        r.push(0x80 | (v & 0x3F) as u8);
    } else {
        r.push(0xF0 | ((v >> 18) & 0x7) as u8);
        r.push(0x80 | ((v >> 12) & 0x3F) as u8);
        r.push(0x80 | ((v >> 6) & 0x3F) as u8);
        r.push(0x80 | (v & 0x3F) as u8);
    }
    proof {
        broadcast use vstd::utf8::char_is_scalar;
    }
    assert(r@ =~= encode_scalar(v));
    r
}

} // verus!
