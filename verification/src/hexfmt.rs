//! Fixed-width hexadecimal rendering of machine integers as character
//! sequences, with the decode direction and its round-trip proofs. The token
//! wire format writes every numeric field this way.

use vstd::prelude::*;
use vstd::arithmetic::div_mod::lemma_fundamental_div_mod;
use vstd::arithmetic::mul::lemma_mul_inequality;
use vstd::string::StrSliceExecFns;

verus! {

/// The character for one hexadecimal digit (lower case).
pub open spec fn hex_digit(d: nat) -> char {
    if d == 0 {
        '0'
    } else if d == 1 {
        '1'
    } else if d == 2 {
        '2'
    } else if d == 3 {
        '3'
    } else if d == 4 {
        '4'
    } else if d == 5 {
        '5'
    } else if d == 6 {
        '6'
    } else if d == 7 {
        '7'
    } else if d == 8 {
        '8'
    } else if d == 9 {
        '9'
    } else if d == 10 {
        'a'
    } else if d == 11 {
        'b'
    } else if d == 12 {
        'c'
    } else if d == 13 {
        'd'
    } else if d == 14 {
        'e'
    } else {
        'f'
    }
}

/// The value of one hexadecimal digit character.
pub open spec fn digit_val(c: char) -> nat {
    if c == '0' {
        0
    } else if c == '1' {
        1
    } else if c == '2' {
        2
    } else if c == '3' {
        3
    } else if c == '4' {
        4
    } else if c == '5' {
        5
    } else if c == '6' {
        6
    } else if c == '7' {
        7
    } else if c == '8' {
        8
    } else if c == '9' {
        9
    } else if c == 'a' {
        10
    } else if c == 'b' {
        11
    } else if c == 'c' {
        12
    } else if c == 'd' {
        13
    } else if c == 'e' {
        14
    } else {
        15
    }
}

pub open spec fn is_hex_digit(c: char) -> bool {
    c == '0' || c == '1' || c == '2' || c == '3' || c == '4' || c == '5' || c == '6' || c == '7'
        || c == '8' || c == '9' || c == 'a' || c == 'b' || c == 'c' || c == 'd' || c == 'e'
        || c == 'f'
}

pub open spec fn all_hex(s: Seq<char>) -> bool {
    forall|i: int| 0 <= i < s.len() ==> is_hex_digit(s[i])
}

/// 16 to the power `w`.
pub open spec fn pow16(w: nat) -> nat
    decreases w,
{
    if w == 0 {
        1
    } else {
        16 * pow16((w - 1) as nat)
    }
}

/// `x` written as exactly `width` hex digits, most significant first
/// (high digits beyond the width are dropped).
#[verifier::opaque]
pub open spec fn hex_rep(x: nat, width: nat) -> Seq<char>
    decreases width,
{
    if width == 0 {
        Seq::empty()
    } else {
        hex_rep(x / 16, (width - 1) as nat).push(hex_digit(x % 16))
    }
}

/// The number a sequence of hex digit characters denotes.
#[verifier::opaque]
pub open spec fn hex_val(s: Seq<char>) -> nat
    decreases s.len(),
{
    if s.len() == 0 {
        0
    } else {
        hex_val(s.drop_last()) * 16 + digit_val(s.last())
    }
}

pub proof fn lemma_digit_roundtrip(d: nat)
    requires
        d < 16,
    ensures
        is_hex_digit(hex_digit(d)),
        digit_val(hex_digit(d)) == d,
{
}

pub proof fn lemma_pow16_pos(w: nat)
    ensures
        pow16(w) >= 1,
    decreases w,
{
    if w > 0 {
        lemma_pow16_pos((w - 1) as nat);
    }
}

pub proof fn lemma_pow16_le(a: nat, b: nat)
    requires
        a <= b,
    ensures
        pow16(a) <= pow16(b),
    decreases b,
{
    if a < b {
        lemma_pow16_le(a, (b - 1) as nat);
        lemma_pow16_pos((b - 1) as nat);
    }
}

pub proof fn lemma_hex_rep_len(x: nat, width: nat)
    ensures
        hex_rep(x, width).len() == width,
        all_hex(hex_rep(x, width)),
    decreases width,
{
    reveal(hex_rep);
    if width > 0 {
        lemma_hex_rep_len(x / 16, (width - 1) as nat);
        lemma_digit_roundtrip(x % 16);
        assert forall|i: int| 0 <= i < width implies is_hex_digit(hex_rep(x, width)[i]) by {
            if i < width - 1 {
                assert(hex_rep(x, width)[i] == hex_rep(x / 16, (width - 1) as nat)[i]);
            }
        }
    }
}

/// Writing a value below `16^width` as `width` digits and reading it back
/// gives the value again.
pub proof fn lemma_hex_roundtrip(x: nat, width: nat)
    requires
        x < pow16(width),
    ensures
        hex_val(hex_rep(x, width)) == x,
    decreases width,
{
    reveal(hex_rep);
    reveal(hex_val);
    if width == 0 {
        assert(x == 0);
    } else {
        let q = x / 16;
        let r = x % 16;
        lemma_fundamental_div_mod(x as int, 16);
        assert(q < pow16((width - 1) as nat)) by {
            if q >= pow16((width - 1) as nat) {
                lemma_mul_inequality(pow16((width - 1) as nat) as int, q as int, 16);
                assert(x >= 16 * q);
            }
        }
        lemma_hex_roundtrip(q, (width - 1) as nat);
        lemma_digit_roundtrip(r);
        let s = hex_rep(x, width);
        lemma_hex_rep_len(q, (width - 1) as nat);
        assert(s.drop_last() =~= hex_rep(q, (width - 1) as nat));
        assert(hex_val(s) == q * 16 + r);
    }
}

/// A sequence of `w` hex digits denotes a value below `16^w`.
pub proof fn lemma_hex_val_bound(s: Seq<char>)
    requires
        all_hex(s),
    ensures
        hex_val(s) < pow16(s.len()),
    decreases s.len(),
{
    reveal(hex_val);
    if s.len() > 0 {
        assert(all_hex(s.drop_last()));
        lemma_hex_val_bound(s.drop_last());
        let p = pow16((s.len() - 1) as nat);
        assert(hex_val(s.drop_last()) <= p - 1);
        lemma_mul_inequality(hex_val(s.drop_last()) as int, p as int - 1, 16);
        assert(digit_val(s.last()) < 16);
    }
}

/// The largest width the wire format uses fills a `u128` exactly.
pub proof fn lemma_pow16_32()
    ensures
        pow16(32) == 0x100000000000000000000000000000000,
{
    reveal_with_fuel(pow16, 33);
}

/// Sixteen digits fill a `u64` exactly.
pub proof fn lemma_pow16_16()
    ensures
        pow16(16) == 0x10000000000000000,
{
    reveal_with_fuel(pow16, 17);
}

/// Two digits fill a `u8` exactly.
pub proof fn lemma_pow16_2()
    ensures
        pow16(2) == 256,
{
    reveal_with_fuel(pow16, 3);
}

/// Appends one hex digit character to `out`.
fn push_hex_digit(out: &mut String, d: u8)
    requires
        d < 16,
    ensures
        final(out)@ == old(out)@ + seq![hex_digit(d as nat)],
{
    proof {
        reveal_strlit("0");
        reveal_strlit("1");
        reveal_strlit("2");
        reveal_strlit("3");
        reveal_strlit("4");
        reveal_strlit("5");
        reveal_strlit("6");
        reveal_strlit("7");
        reveal_strlit("8");
        reveal_strlit("9");
        reveal_strlit("a");
        reveal_strlit("b");
        reveal_strlit("c");
        reveal_strlit("d");
        reveal_strlit("e");
        reveal_strlit("f");
    }
    let piece: &str = if d == 0 {
        "0"
    } else if d == 1 {
        "1"
    } else if d == 2 {
        "2"
    } else if d == 3 {
        "3"
    } else if d == 4 {
        "4"
    } else if d == 5 {
        "5"
    } else if d == 6 {
        "6"
    } else if d == 7 {
        "7"
    } else if d == 8 {
        "8"
    } else if d == 9 {
        "9"
    } else if d == 10 {
        "a"
    } else if d == 11 {
        "b"
    } else if d == 12 {
        "c"
    } else if d == 13 {
        "d"
    } else if d == 14 {
        "e"
    } else {
        "f"
    };
    assert(piece@ =~= seq![hex_digit(d as nat)]);
    out.append(piece);
}

/// Appends `x` as exactly `width` hex digits, most significant first.
pub fn append_hex(out: &mut String, x: u128, width: usize)
    ensures
        final(out)@ == old(out)@ + hex_rep(x as nat, width as nat),
    decreases width,
{
    if width > 0 {
        append_hex(out, x / 16, width - 1);
        push_hex_digit(out, (x % 16) as u8);
        proof {
            reveal(hex_rep);
            let xs = x as nat;
            assert(hex_rep(xs, width as nat) == hex_rep(xs / 16, (width - 1) as nat).push(
                hex_digit(xs % 16),
            ));
            assert(final(out)@ =~= old(out)@ + hex_rep(xs, width as nat));
        }
    } else {
        proof {
            reveal(hex_rep);
        }
        assert(final(out)@ =~= old(out)@ + hex_rep(x as nat, 0));
    }
}

/// The value of one hex digit character, or `None` if it is not one.
fn hex_digit_value(c: char) -> (r: Option<u8>)
    ensures
        r is Some <==> is_hex_digit(c),
        r matches Some(v) ==> v as nat == digit_val(c) && v < 16,
{
    match c {
        '0' => Some(0),
        '1' => Some(1),
        '2' => Some(2),
        '3' => Some(3),
        '4' => Some(4),
        '5' => Some(5),
        '6' => Some(6),
        '7' => Some(7),
        '8' => Some(8),
        '9' => Some(9),
        'a' => Some(10),
        'b' => Some(11),
        'c' => Some(12),
        'd' => Some(13),
        'e' => Some(14),
        'f' => Some(15),
        _ => None,
    }
}

/// Reads `width` hex digits of `s` starting at character `off`.
pub fn parse_hex(s: &str, off: usize, width: usize) -> (r: Option<u128>)
    requires
        off + width <= s@.len(),
        off + width <= usize::MAX,
        width <= 32,
    ensures
        r is Some <==> all_hex(s@.subrange(off as int, off as int + width as int)),
        r matches Some(v) ==> v as nat == hex_val(
            s@.subrange(off as int, off as int + width as int),
        ),
{
    let ghost whole = s@.subrange(off as int, off as int + width as int);
    let mut acc: u128 = 0;
    let mut i: usize = 0;
    proof {
        lemma_pow16_32();
        reveal(hex_val);
        assert(s@.subrange(off as int, off as int).len() == 0);
    }
    while i < width
        invariant
            i <= width,
            width <= 32,
            off + width <= s@.len(),
            off + width <= usize::MAX,
            whole == s@.subrange(off as int, off as int + width as int),
            all_hex(s@.subrange(off as int, off as int + i as int)),
            acc as nat == hex_val(s@.subrange(off as int, off as int + i as int)),
            (acc as nat) < pow16(i as nat),
            pow16(32) == 0x100000000000000000000000000000000,
        decreases width - i,
    {
        let c = s.get_char(off + i);
        match hex_digit_value(c) {
            None => {
                proof {
                    assert(whole[i as int] == c);
                    assert(!all_hex(whole));
                }
                return None;
            },
            Some(d) => {
                proof {
                    reveal(hex_val);
                    let pre = s@.subrange(off as int, off as int + i as int);
                    let ext = s@.subrange(off as int, off as int + i as int + 1);
                    assert(ext.drop_last() =~= pre);
                    assert(ext.last() == c);
                    assert(hex_val(ext) == hex_val(pre) * 16 + digit_val(c));
                    lemma_pow16_le((i + 1) as nat, 32);
                    assert((acc as nat * 16 + d as nat) < pow16((i + 1) as nat)) by {
                        lemma_mul_inequality(acc as int, pow16(i as nat) as int - 1, 16);
                    }
                    assert(forall|j: int|
                        0 <= j < ext.len() ==> ext[j] == s@[off + j] && is_hex_digit(ext[j]));
                }
                acc = acc * 16 + (d as u128);
                i = i + 1;
            },
        }
    }
    proof {
        assert(s@.subrange(off as int, off as int + i as int) =~= whole);
    }
    Some(acc)
}

/// Character-wise string equality.
pub fn str_eq(a: &str, b: &str) -> (r: bool)
    ensures
        r == (a@ == b@),
{
    let n = a.unicode_len();
    if n != b.unicode_len() {
        return false;
    }
    let mut i: usize = 0;
    while i < n
        invariant
            i <= n,
            n == a@.len(),
            n == b@.len(),
            forall|j: int| 0 <= j < i ==> a@[j] == b@[j],
        decreases n - i,
    {
        if a.get_char(i) != b.get_char(i) {
            return false;
        }
        i = i + 1;
    }
    proof {
        assert(a@ =~= b@);
    }
    true
}

} // verus!
