//! Number formatting for diagnostics: lowercase hexadecimal with a `0x` prefix,
//! plain decimal, and the concatenation helpers that messages are built with.

use vstd::prelude::*;
use vstd::string::StringExecFns;

verus! {

/// The character that stands for the digit `d` (0 to 15).
pub open spec fn digit_char(d: int) -> char {
    if d < 10 {
        (48 + d) as char
    } else {
        (87 + d) as char
    }
}

/// The digits of `n` in base 10, without leading zeros (`"0"` for zero).
pub open spec fn dec(n: nat) -> Seq<char>
    decreases n,
{
    if n < 10 {
        seq![digit_char(n as int)]
    } else {
        dec(n / 10).push(digit_char((n % 10) as int))
    }
}

/// The digits of `n` in base 16, lowercase, without leading zeros.
pub open spec fn hex_digits(n: nat) -> Seq<char>
    decreases n,
{
    if n < 16 {
        seq![digit_char(n as int)]
    } else {
        hex_digits(n / 16).push(digit_char((n % 16) as int))
    }
}

/// `n` in base 16 with the `0x` prefix.
pub open spec fn hex(n: nat) -> Seq<char> {
    seq!['0', 'x'] + hex_digits(n)
}

/// A signed number in base 10, with a leading `-` when negative.
pub open spec fn signed_dec(n: int) -> Seq<char> {
    if n < 0 {
        seq!['-'] + dec((-n) as nat)
    } else {
        dec(n as nat)
    }
}

/// `width` copies of `'0'`.
pub open spec fn zeros(width: nat) -> Seq<char> {
    Seq::new(width, |i: int| '0')
}

/// `n` in base 16 with the `0x` prefix, the digits padded on the left with
/// zeros to at least `width`.
pub open spec fn hex_padded(n: nat, width: nat) -> Seq<char> {
    let d = hex_digits(n);
    if d.len() < width {
        seq!['0', 'x'] + zeros((width - d.len()) as nat) + d
    } else {
        seq!['0', 'x'] + d
    }
}

/// The digit `d` as a string of one character.
fn digit_str(d: u64) -> (s: &'static str)
    requires
        d < 16,
    ensures
        s@ == seq![digit_char(d as int)],
{
    proof {
        reveal_strlit("0");
        reveal_strlit("1");
        reveal_strlit("2");
        reveal_strlit("3");
        reveal_strlit("4");
        reveal_strlit("5");
        reveal_strlit("6");
        reveal_strlit("7");
        reveal_strlit("8");
        reveal_strlit("9");
        reveal_strlit("a");
        reveal_strlit("b");
        reveal_strlit("c");
        reveal_strlit("d");
        reveal_strlit("e");
        reveal_strlit("f");
    }
    match d {
        0 => "0",
        1 => "1",
        2 => "2",
        3 => "3",
        4 => "4",
        5 => "5",
        6 => "6",
        7 => "7",
        8 => "8",
        9 => "9",
        10 => "a",
        11 => "b",
        12 => "c",
        13 => "d",
        14 => "e",
        _ => "f",
    }
}

/// Appends `n` in base 10 to `out`.
pub fn push_dec(out: &mut String, n: u64)
    ensures
        final(out)@ == old(out)@ + dec(n as nat),
    decreases n,
{
    if n >= 10 {
        push_dec(out, n / 10);
    }
    out.append(digit_str(n % 10));
    proof {
        let d = digit_char((n % 10) as int);
        if n >= 10 {
            assert(old(out)@ + dec((n / 10) as nat) + seq![d] =~= old(out)@ + dec(
                (n / 10) as nat,
            ).push(d));
        }
    }
}

/// Appends the base 16 digits of `n` to `out`.
pub fn push_hex_digits(out: &mut String, n: u64)
    ensures
        final(out)@ == old(out)@ + hex_digits(n as nat),
    decreases n,
{
    if n >= 16 {
        push_hex_digits(out, n / 16);
    }
    out.append(digit_str(n % 16));
    proof {
        let d = digit_char((n % 16) as int);
        if n >= 16 {
            assert(old(out)@ + hex_digits((n / 16) as nat) + seq![d] =~= old(out)@ + hex_digits(
                (n / 16) as nat,
            ).push(d));
        }
    }
}

/// Appends `n` in base 16 with its `0x` prefix to `out`.
pub fn push_hex(out: &mut String, n: u64)
    ensures
        final(out)@ == old(out)@ + hex(n as nat),
{
    proof {
        reveal_strlit("0x");
        assert("0x"@ =~= seq!['0', 'x']);
    }
    out.append("0x");
    push_hex_digits(out, n);
    proof {
        assert(old(out)@ + seq!['0', 'x'] + hex_digits(n as nat) =~= old(out)@ + hex(n as nat));
    }
}

/// Appends a signed number in base 10 to `out`.
pub fn push_signed_dec(out: &mut String, n: i64)
    ensures
        final(out)@ == old(out)@ + signed_dec(n as int),
{
    if n < 0 {
        proof {
            reveal_strlit("-");
            assert("-"@ =~= seq!['-']);
        }
        out.append("-");
        let magnitude: u64 = (-(n + 1)) as u64 + 1;
        push_dec(out, magnitude);
        proof {
            assert(old(out)@ + seq!['-'] + dec(magnitude as nat) =~= old(out)@ + signed_dec(
                n as int,
            ));
        }
    } else {
        push_dec(out, n as u64);
    }
}

/// The number of base 16 digits of `n`.
fn hex_len(n: u64) -> (len: usize)
    ensures
        len == hex_digits(n as nat).len(),
        1 <= len <= 16,
{
    let mut rest: u64 = n;
    let mut len: usize = 1;
    assert(hex_digits(n as nat).len() >= 1);
    while rest >= 16
        invariant
            1 <= len <= 16,
            len - 1 + hex_digits(rest as nat).len() == hex_digits(n as nat).len(),
            len == 1 ==> rest as int <= 0xffff_ffff_ffff_ffff,
            len == 2 ==> rest as int <= 0xfff_ffff_ffff_ffff,
            len == 3 ==> rest as int <= 0xff_ffff_ffff_ffff,
            len == 4 ==> rest as int <= 0xf_ffff_ffff_ffff,
            len == 5 ==> rest as int <= 0xffff_ffff_ffff,
            len == 6 ==> rest as int <= 0xfff_ffff_ffff,
            len == 7 ==> rest as int <= 0xff_ffff_ffff,
            len == 8 ==> rest as int <= 0xf_ffff_ffff,
            len == 9 ==> rest as int <= 0xffff_ffff,
            len == 10 ==> rest as int <= 0xfff_ffff,
            len == 11 ==> rest as int <= 0xff_ffff,
            len == 12 ==> rest as int <= 0xf_ffff,
            len == 13 ==> rest as int <= 0xffff,
            len == 14 ==> rest as int <= 0xfff,
            len == 15 ==> rest as int <= 0xff,
            len == 16 ==> rest as int <= 0xf,
        decreases rest,
    {
        rest = rest / 16;
        len = len + 1;
    }
    len
}

/// Appends `n` in base 16 with its prefix, zero-padded to `width` digits.
pub fn push_hex_padded(out: &mut String, n: u64, width: usize)
    ensures
        final(out)@ == old(out)@ + hex_padded(n as nat, width as nat),
{
    proof {
        reveal_strlit("0x");
        reveal_strlit("0");
        assert("0x"@ =~= seq!['0', 'x']);
    }
    out.append("0x");
    let len = hex_len(n);
    let mut k: usize = len;
    assert(out@ =~= old(out)@ + seq!['0', 'x'] + zeros(0));
    while k < width
        invariant
            len <= k,
            k <= width || k == len,
            "0"@ == seq!['0'],
            out@ == old(out)@ + seq!['0', 'x'] + zeros((k - len) as nat),
        decreases width - k,
    {
        out.append("0");
        k = k + 1;
        assert(zeros((k - 1 - len) as nat) + seq!['0'] =~= zeros((k - len) as nat));
        assert(out@ =~= old(out)@ + seq!['0', 'x'] + zeros((k - len) as nat));
    }
    push_hex_digits(out, n);
    proof {
        assert(out@ =~= old(out)@ + hex_padded(n as nat, width as nat));
    }
}

/// `prefix` followed by `n` in base 16.
pub fn with_hex(prefix: &str, n: u64) -> (s: String)
    ensures
        s@ == prefix@ + hex(n as nat),
{
    let mut s = prefix.to_owned();
    push_hex(&mut s, n);
    s
}

/// `prefix`, `n` in base 16, then `suffix`.
pub fn with_hex_between(prefix: &str, n: u64, suffix: &str) -> (s: String)
    ensures
        s@ == prefix@ + hex(n as nat) + suffix@,
{
    let mut s = prefix.to_owned();
    push_hex(&mut s, n);
    s.append(suffix);
    s
}

/// `prefix` followed by `n` in base 10.
pub fn with_dec(prefix: &str, n: u64) -> (s: String)
    ensures
        s@ == prefix@ + dec(n as nat),
{
    let mut s = prefix.to_owned();
    push_dec(&mut s, n);
    s
}

} // verus!
