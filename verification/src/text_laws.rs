//! Numbers as text: what is written reads back.

use vstd::prelude::*;

use crate::text::{dec, digit_char, hex, hex_digits, hex_padded, signed_dec, zeros};

verus! {

/// The digit that a character stands for.
pub open spec fn digit_value(c: char) -> int {
    if '0' <= c && c <= '9' {
        c as int - '0' as int
    } else {
        c as int - 'a' as int + 10
    }
}

/// The number that digits stand for in a base.
pub open spec fn read(s: Seq<char>, base: int) -> int
    decreases s.len(),
{
    if s.len() == 0 {
        0
    } else {
        read(s.drop_last(), base) * base + digit_value(s.last())
    }
}

/// All characters are digits of a base.
pub open spec fn all_digits(s: Seq<char>, base: int) -> bool {
    forall|k: int|
        0 <= k < s.len() ==> (('0' <= #[trigger] s[k] && s[k] <= '9') || ('a' <= s[k] && s[k]
            <= 'f')) && digit_value(s[k]) < base
}

/// One more digit.
proof fn lemma_push(s: Seq<char>, d: int, base: int)
    requires
        0 <= d < base <= 16,
        all_digits(s, base),
    ensures
        read(s.push(digit_char(d)), base) == read(s, base) * base + d,
        all_digits(s.push(digit_char(d)), base),
{
    let t = s.push(digit_char(d));
    assert(t.drop_last() =~= s);
    assert forall|k: int| 0 <= k < t.len() implies (('0' <= #[trigger] t[k] && t[k] <= '9') || ('a'
        <= t[k] && t[k] <= 'f')) && digit_value(t[k]) < base by {
        if k < s.len() {
            assert(t[k] == s[k]);
        }
    }
}

/// A decimal number has digits only, no leading zero, and reads back as the number.
pub proof fn decimals_read_back(n: nat)
    ensures
        read(dec(n), 10) == n,
        all_digits(dec(n), 10),
        dec(n).len() > 0,
        n > 0 ==> dec(n)[0] != '0',
        n == 0 ==> dec(n) == seq!['0'],
    decreases n,
{
    if n < 10 {
        let none = Seq::<char>::empty();
        lemma_push(none, n as int, 10);
        assert(none.push(digit_char(n as int)) =~= dec(n));
    } else {
        decimals_read_back(n / 10);
        lemma_push(dec(n / 10), (n % 10) as int, 10);
    }
}

/// A hexadecimal number has digits only, no leading zero, and reads back as the number.
pub proof fn hexadecimals_read_back(n: nat)
    ensures
        read(hex_digits(n), 16) == n,
        all_digits(hex_digits(n), 16),
        hex_digits(n).len() > 0,
        n > 0 ==> hex_digits(n)[0] != '0',
        n == 0 ==> hex_digits(n) == seq!['0'],
    decreases n,
{
    if n < 16 {
        let none = Seq::<char>::empty();
        lemma_push(none, n as int, 16);
        assert(none.push(digit_char(n as int)) =~= hex_digits(n));
    } else {
        hexadecimals_read_back(n / 16);
        lemma_push(hex_digits(n / 16), (n % 16) as int, 16);
    }
}

/// Leading zeros do not matter.
proof fn lemma_zeros(k: nat, s: Seq<char>)
    requires
        all_digits(s, 16),
    ensures
        read(zeros(k) + s, 16) == read(s, 16),
        all_digits(zeros(k) + s, 16),
    decreases s.len(), k,
{
    let t = zeros(k) + s;
    assert forall|j: int| 0 <= j < t.len() implies (('0' <= #[trigger] t[j] && t[j] <= '9') || ('a'
        <= t[j] && t[j] <= 'f')) && digit_value(t[j]) < 16 by {
        if j >= k {
            assert(t[j] == s[j - k]);
        }
    }
    if s.len() > 0 {
        assert(t.drop_last() =~= zeros(k) + s.drop_last());
        assert(all_digits(s.drop_last(), 16)) by {
            assert forall|j: int| 0 <= j < s.drop_last().len() implies (('0'
                <= #[trigger] s.drop_last()[j] && s.drop_last()[j] <= '9') || ('a'
                <= s.drop_last()[j] && s.drop_last()[j] <= 'f')) && digit_value(s.drop_last()[j])
                < 16 by {
                assert(s.drop_last()[j] == s[j]);
            }
        }
        lemma_zeros(k, s.drop_last());
    } else if k > 0 {
        assert(t.drop_last() =~= zeros((k - 1) as nat) + s);
        lemma_zeros((k - 1) as nat, s);
        assert(t.last() == '0');
    }
}

/// Addresses are written with `0x` and at least so many digits, and read back.
pub proof fn padded_numbers_read_back(n: nat, width: nat)
    ensures
        hex_padded(n, width).take(2) == seq!['0', 'x'],
        hex(n).take(2) == seq!['0', 'x'],
        read(hex_padded(n, width).skip(2), 16) == n,
        read(hex(n).skip(2), 16) == n,
        all_digits(hex_padded(n, width).skip(2), 16),
        hex_padded(n, width).len() >= 2 + width,
        hex_padded(n, width).len() == 2 + width || hex_padded(n, width) == hex(n),
{
    let d = hex_digits(n);
    hexadecimals_read_back(n);
    assert(hex(n).take(2) =~= seq!['0', 'x']);
    assert(hex(n).skip(2) =~= d);
    if d.len() < width {
        let k = (width - d.len()) as nat;
        lemma_zeros(k, d);
        assert(hex_padded(n, width).skip(2) =~= zeros(k) + d);
    } else {
        assert(hex_padded(n, width).skip(2) =~= d);
    }
    assert(hex_padded(n, width).take(2) =~= seq!['0', 'x']);
}

/// Negative numbers have a minus before their absolute value, others none.
pub proof fn signed_numbers_read_back(n: int)
    ensures
        n >= 0 ==> read(signed_dec(n), 10) == n && signed_dec(n)[0] != '-',
        n < 0 ==> signed_dec(n)[0] == '-' && read(signed_dec(n).skip(1), 10) == -n,
{
    if n < 0 {
        decimals_read_back((-n) as nat);
        assert(signed_dec(n).skip(1) =~= dec((-n) as nat));
    } else {
        decimals_read_back(n as nat);
        assert(all_digits(dec(n as nat), 10));
        assert('0' <= dec(n as nat)[0] || 'a' <= dec(n as nat)[0]);
    }
}

} // verus!
