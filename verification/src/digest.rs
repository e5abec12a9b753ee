//! Digests and encodings the servers ask for: MD5 in lower-case hex and
//! standard base64.
use base64::Engine;
use vstd::prelude::*;
use vstd::string::StringSliceAdditionalSpecFns;

verus! {

/// The MD5 digest of a byte string.
pub uninterp spec fn md5_of(data: Seq<u8>) -> Seq<u8>;

/// `md5::compute`: the 16-byte MD5 digest of `data`.
#[verifier::external_body]
pub fn md5_digest(data: &[u8]) -> (r: Vec<u8>)
    ensures
        r@ == md5_of(data@),
        r@.len() == 16,
{
    md5::compute(data).0.to_vec()
}

/// The character of a six-bit value in the standard base64 alphabet.
pub open spec fn base64_char(n: int) -> char {
    if n < 26 {
        (65 + n) as char
    } else if n < 52 {
        (97 + n - 26) as char
    } else if n < 62 {
        (48 + n - 52) as char
    } else if n == 62 {
        '+'
    } else {
        '/'
    }
}

/// The standard (padded) base64 text of a byte string: each group of three
/// bytes becomes four characters of six bits each, and a last group of one
/// or two bytes is padded with `=` to four characters.
pub open spec fn base64_of(data: Seq<u8>) -> Seq<char>
    decreases data.len(),
{
    if data.len() == 0 {
        Seq::empty()
    } else {
        let x = data[0] as int;
        let y = if data.len() > 1 {
            data[1] as int
        } else {
            0
        };
        let z = if data.len() > 2 {
            data[2] as int
        } else {
            0
        };
        let first = seq![base64_char(x / 4), base64_char((x % 4) * 16 + y / 16)];
        if data.len() == 1 {
            first + seq!['=', '=']
        } else if data.len() == 2 {
            first + seq![base64_char((y % 16) * 4), '=']
        } else {
            first + seq![base64_char((y % 16) * 4 + z / 64), base64_char(z % 64)] + base64_of(data.skip(3))
        }
    }
}

/// `base64::engine::general_purpose::STANDARD.encode`: the padded base64
/// text of `data` in the standard alphabet.  The engine panics when the
/// encoded length overflows `usize`, which the bound on `data` rules out.
#[verifier::external_body]
pub fn base64_standard(data: &[u8]) -> (r: String)
    requires
        data@.len() <= usize::MAX / 2,
    ensures
        r@ == base64_of(data@),
{
    base64::engine::general_purpose::STANDARD.encode(data)
}

pub open spec fn hex_digit(n: u8) -> char {
    if n < 10 {
        (n + 48) as char
    } else {
        (n + 87) as char
    }
}

/// Lower-case hexadecimal, two digits per byte (the `{:x}` format of a
/// digest).
pub open spec fn hex_lower(data: Seq<u8>) -> Seq<char>
    decreases data.len(),
{
    if data.len() == 0 {
        seq![]
    } else {
        hex_lower(data.drop_last()) + seq![
            hex_digit(data.last() / 16),
            hex_digit(data.last() % 16),
        ]
    }
}

fn hex_char(n: u8) -> (c: char)
    requires
        n < 16,
    ensures
        c == hex_digit(n),
{
    if n < 10 {
        (n + 48) as char
    } else {
        (n + 87) as char
    }
}

/// Appends the lower-case hexadecimal digits of `data`.
pub fn push_hex(out: &mut Vec<char>, data: &[u8])
    ensures
        final(out)@ == old(out)@ + hex_lower(data@),
{
    let ghost start = out@;
    let mut i: usize = 0;
    assert(data@.take(0) == Seq::<u8>::empty());
    while i < data.len()
        invariant
            i <= data.len(),
            out@ == start + hex_lower(data@.take(i as int)),
        decreases data.len() - i,
    {
        let b = data[i];
        out.push(hex_char(b / 16));
        out.push(hex_char(b % 16));
        assert(data@.take(i + 1).drop_last() == data@.take(i as int));
        i = i + 1;
    }
    assert(data@.take(data.len() as int) == data@);
}

/// The MD5 digest of `s` written in lower-case hexadecimal.
pub open spec fn md5_hex(s: Seq<u8>) -> Seq<char> {
    hex_lower(md5_of(s))
}

/// The MD5 digest of a string's UTF-8 bytes in lower-case hexadecimal
/// (`format!("{:x}", md5::compute(s))`).
pub fn md5_hex_of_str(s: &str) -> (r: Vec<char>)
    ensures
        r@ == md5_hex(s.spec_bytes()),
{
    let d = md5_digest(s.as_bytes());
    let mut out: Vec<char> = Vec::new();
    push_hex(&mut out, d.as_slice());
    out
}

} // verus!
