//! Decimal and hexadecimal rendering of integers.
use vstd::prelude::*;

verus! {

pub open spec fn digit_char(d: nat) -> char {
    ((d % 10) + 48) as char
}

/// The decimal digits of `n`, most significant first, without leading zeros
/// (what `Display` prints for an unsigned integer).
pub open spec fn decimal(n: nat) -> Seq<char>
    decreases n,
{
    if n < 10 {
        seq![digit_char(n)]
    } else {
        decimal(n / 10) + seq![digit_char(n % 10)]
    }
}

/// What `Display` prints for a signed integer.
pub open spec fn decimal_signed(n: int) -> Seq<char> {
    if n < 0 {
        seq!['-'] + decimal((-n) as nat)
    } else {
        decimal(n as nat)
    }
}

/// `decimal(n)` left-padded with zeros to at least `width` characters
/// (the `{:0width$}` format).
pub open spec fn zero_padded(n: nat, width: nat) -> Seq<char> {
    let d = decimal(n);
    if d.len() >= width {
        d
    } else {
        Seq::new((width - d.len()) as nat, |i: int| '0') + d
    }
}

pub proof fn lemma_decimal_len(n: nat)
    ensures
        decimal(n).len() >= 1,
        n < 10 ==> decimal(n).len() == 1,
        10 <= n < 100 ==> decimal(n).len() == 2,
        100 <= n < 1000 ==> decimal(n).len() == 3,
    decreases n,
{
    if n >= 10 {
        lemma_decimal_len(n / 10);
    }
}

/// Appends the decimal digits of `n`.
pub fn push_decimal(out: &mut Vec<char>, n: u64)
    ensures
        final(out)@ == old(out)@ + decimal(n as nat),
    decreases n,
{
    if n >= 10 {
        push_decimal(out, n / 10);
    }
    let d = (n % 10) as u8;
    let c = (d + 48) as char;
    assert(digit_char((n % 10) as nat) == c);
    out.push(c);
}

/// Appends the decimal representation of a signed integer.
pub fn push_decimal_signed(out: &mut Vec<char>, n: i64)
    ensures
        final(out)@ == old(out)@ + decimal_signed(n as int),
{
    if n < 0 {
        out.push('-');
        let m: u64 = if n == i64::MIN {
            9223372036854775808u64
        } else {
            (-n) as u64
        };
        push_decimal(out, m);
    } else {
        push_decimal(out, n as u64);
    }
}

/// Appends `n` left-padded with zeros to `width` characters.
pub fn push_zero_padded(out: &mut Vec<char>, n: u64, width: usize)
    ensures
        final(out)@ == old(out)@ + zero_padded(n as nat, width as nat),
{
    let mut digits: Vec<char> = Vec::new();
    push_decimal(&mut digits, n);
    assert(digits@ == decimal(n as nat));
    if digits.len() < width {
        let pad = width - digits.len();
        let mut k: usize = 0;
        let ghost start = out@;
        while k < pad
            invariant
                k <= pad,
                out@ == start + Seq::new(k as nat, |i: int| '0'),
            decreases pad - k,
        {
            out.push('0');
            k = k + 1;
            assert(Seq::new(k as nat, |i: int| '0') == Seq::new((k - 1) as nat, |i: int| '0').push(
                '0',
            ));
        }
    }
    let mut i: usize = 0;
    let ghost before = out@;
    while i < digits.len()
        invariant
            i <= digits.len(),
            out@ == before + digits@.take(i as int),
        decreases digits.len() - i,
    {
        out.push(digits[i]);
        i = i + 1;
        assert(digits@.take(i as int) == digits@.take((i - 1) as int).push(digits@[i - 1]));
    }
    assert(digits@.take(digits.len() as int) == digits@);
}


pub open spec fn hex_char_of(d: nat) -> char {
    if d % 16 < 10 {
        ((d % 16) + 48) as char
    } else {
        ((d % 16) + 87) as char
    }
}

/// The lower-case hexadecimal digits of `n` without leading zeros (the
/// `{:x}` format).
pub open spec fn lower_hex(n: nat) -> Seq<char>
    decreases n,
{
    if n < 16 {
        seq![hex_char_of(n)]
    } else {
        lower_hex(n / 16) + seq![hex_char_of(n % 16)]
    }
}

/// `lower_hex(n)` left-padded with zeros to at least `width` characters
/// (the `{:0width$x}` format).
pub open spec fn hex_padded(n: nat, width: nat) -> Seq<char> {
    let d = lower_hex(n);
    if d.len() >= width {
        d
    } else {
        Seq::new((width - d.len()) as nat, |i: int| '0') + d
    }
}

fn hex_char_exec(d: u64) -> (c: char)
    requires
        d < 16,
    ensures
        c == hex_char_of(d as nat),
{
    if d < 10 {
        ((d + 48) as u8) as char
    } else {
        ((d + 87) as u8) as char
    }
}

/// Appends the lower-case hexadecimal digits of `n`.
pub fn push_lower_hex(out: &mut Vec<char>, n: u64)
    ensures
        final(out)@ == old(out)@ + lower_hex(n as nat),
    decreases n,
{
    if n >= 16 {
        push_lower_hex(out, n / 16);
    }
    out.push(hex_char_exec(n % 16));
}

/// Appends `n` in lower-case hexadecimal, zero-padded to `width`.
pub fn push_hex_padded(out: &mut Vec<char>, n: u64, width: usize)
    ensures
        final(out)@ == old(out)@ + hex_padded(n as nat, width as nat),
{
    let mut digits: Vec<char> = Vec::new();
    push_lower_hex(&mut digits, n);
    assert(digits@ == lower_hex(n as nat));
    let ghost start = out@;
    if digits.len() < width {
        let pad = width - digits.len();
        let mut k: usize = 0;
        while k < pad
            invariant
                k <= pad,
                out@ == start + Seq::new(k as nat, |i: int| '0'),
            decreases pad - k,
        {
            out.push('0');
            k = k + 1;
            assert(Seq::new(k as nat, |i: int| '0') == Seq::new((k - 1) as nat, |i: int| '0').push(
                '0',
            ));
        }
    }
    let mut i: usize = 0;
    let ghost before = out@;
    while i < digits.len()
        invariant
            i <= digits.len(),
            out@ == before + digits@.take(i as int),
        decreases digits.len() - i,
    {
        out.push(digits[i]);
        i = i + 1;
        assert(digits@.take(i as int) == digits@.take((i - 1) as int).push(digits@[i - 1]));
    }
    assert(digits@.take(digits.len() as int) == digits@);
}

/// Whether every character is an ASCII digit.
pub open spec fn all_digits(s: Seq<char>) -> bool {
    forall|i: int| 0 <= i < s.len() ==> '0' <= #[trigger] s[i] <= '9'
}

/// The number the decimal digits `s` write.
pub open spec fn digits_value(s: Seq<char>) -> nat
    decreases s.len(),
{
    if s.len() == 0 {
        0
    } else {
        digits_value(s.drop_last()) * 10 + ((s.last() as int - '0' as int) as nat)
    }
}

/// What `u32::from_str` gives: an optional `+` then at least one decimal
/// digit and nothing else, within range.
pub open spec fn parse_u32_spec(s: Seq<char>) -> Option<u32> {
    let d = if s.len() > 0 && s[0] == '+' {
        s.drop_first()
    } else {
        s
    };
    if d.len() == 0 || !all_digits(d) || digits_value(d) > u32::MAX {
        None
    } else {
        Some(digits_value(d) as u32)
    }
}

proof fn lemma_digits_value_grows(s: Seq<char>, k: int)
    requires
        all_digits(s),
        0 <= k <= s.len(),
    ensures
        digits_value(s.take(k)) <= digits_value(s),
    decreases s.len() - k,
{
    if k < s.len() {
        lemma_digits_value_grows(s, k + 1);
        assert(s.take(k + 1).drop_last() == s.take(k));
        assert(s.take(k + 1).last() == s[k]);
    } else {
        assert(s.take(k) == s);
    }
}

proof fn lemma_all_digits_push(d: Seq<char>, k: int)
    requires
        0 <= k < d.len(),
        all_digits(d.take(k)),
        '0' <= d[k] <= '9',
    ensures
        all_digits(d.take(k + 1)),
{
    assert forall|j: int| 0 <= j < d.take(k + 1).len() implies '0' <= #[trigger] d.take(k + 1)[j] <= '9' by {
        if j < k {
            assert(d.take(k + 1)[j] == d.take(k)[j]);
        }
    }
}

/// The value of the decimal digits `d`, when they all are digits and the
/// value fits in a `u32`.
fn digits_u32(d: &Vec<char>) -> (r: Option<u32>)
    requires
        d@.len() > 0,
    ensures
        r == (if !all_digits(d@) || digits_value(d@) > u32::MAX {
            None
        } else {
            Some(digits_value(d@) as u32)
        }),
{
    let mut acc: u64 = 0;
    let mut i: usize = 0;
    while i < d.len()
        invariant
            i <= d@.len(),
            acc == digits_value(d@.take(i as int)),
            acc <= u32::MAX,
            all_digits(d@.take(i as int)),
        decreases d.len() - i,
    {
        let c = d[i];
        if c < '0' || c > '9' {
            return None;
        }
        proof {
            assert(d@.take(i + 1).drop_last() == d@.take(i as int));
            assert(d@.take(i + 1).last() == c);
            lemma_all_digits_push(d@, i as int);
        }
        let digit: u64 = (c as u64) - ('0' as u64);
        assert(acc * 10 <= 0xffff_ffffu64 * 10) by (nonlinear_arith)
            requires
                acc <= 0xffff_ffffu64,
        ;
        let next: u64 = acc * 10 + digit;
        if next > 0xffff_ffffu64 {
            proof {
                if all_digits(d@) {
                    lemma_digits_value_grows(d@, i + 1);
                }
            }
            return None;
        }
        acc = next;
        i = i + 1;
    }
    proof {
        assert(d@.take(i as int) == d@);
    }
    Some(acc as u32)
}

/// Parses a decimal `u32` as `str::parse::<u32>` does.
pub fn parse_u32(s: &str) -> (r: Option<u32>)
    ensures
        r == parse_u32_spec(s@),
{
    let v = crate::text::chars_of(s);
    let start: usize = if v.len() > 0 && v[0] == '+' {
        1
    } else {
        0
    };
    if start >= v.len() {
        return None;
    }
    let d = crate::text::slice_chars(v.as_slice(), start, v.len());
    proof {
        let e = if s@.len() > 0 && s@[0] == '+' {
            s@.drop_first()
        } else {
            s@
        };
        assert(d@ == e);
    }
    digits_u32(&d)
}

} // verus!
