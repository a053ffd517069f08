//! Rendering numbers and bytes as text: decimal numbers for error messages
//! and lowercase hexadecimal dumps of byte strings.
use vstd::prelude::*;

verus! {

/// The character of a decimal digit `d < 10`.
pub open spec fn decimal_digit(d: nat) -> char {
    if d == 0 {
        '0'
    } else if d == 1 {
        '1'
    } else if d == 2 {
        '2'
    } else if d == 3 {
        '3'
    } else if d == 4 {
        '4'
    } else if d == 5 {
        '5'
    } else if d == 6 {
        '6'
    } else if d == 7 {
        '7'
    } else if d == 8 {
        '8'
    } else {
        '9'
    }
}

/// The character of a hexadecimal digit `d < 16`, lowercase.
pub open spec fn hex_digit(d: nat) -> char {
    if d < 10 {
        decimal_digit(d)
    } else if d == 10 {
        'a'
    } else if d == 11 {
        'b'
    } else if d == 12 {
        'c'
    } else if d == 13 {
        'd'
    } else if d == 14 {
        'e'
    } else {
        'f'
    }
}

/// `n` written in decimal, without leading zeros (as `{}` formats it).
pub open spec fn decimal(n: nat) -> Seq<char>
    decreases n,
{
    if n < 10 {
        seq![decimal_digit(n)]
    } else {
        decimal(n / 10) + seq![decimal_digit(n % 10)]
    }
}

/// A byte as two lowercase hexadecimal digits (as `{:02x}` formats it).
pub open spec fn hex_byte(b: u8) -> Seq<char> {
    seq![hex_digit((b / 16) as nat), hex_digit((b % 16) as nat)]
}

/// The bytes `s` as two-digit hexadecimal numbers separated by single spaces.
pub open spec fn hex_dump_text(s: Seq<u8>) -> Seq<char>
    decreases s.len(),
{
    if s.len() == 0 {
        Seq::empty()
    } else if s.len() == 1 {
        hex_byte(s[0])
    } else {
        hex_dump_text(s.drop_last()) + seq![' '] + hex_byte(s.last())
    }
}

/// The one-character string of a hexadecimal digit.
pub(crate) fn hex_digit_str(d: u8) -> (r: &'static str)
    requires
        d < 16,
    ensures
        r@ == seq![hex_digit(d as nat)],
        hex_char_value(r@[0]) == d,
{
    proof {
        law_hex_digit_reads_back(d as nat);
        reveal_strlit("0");
        reveal_strlit("1");
        reveal_strlit("2");
        reveal_strlit("3");
        reveal_strlit("4");
        reveal_strlit("5");
        reveal_strlit("6");
        reveal_strlit("7");
        reveal_strlit("8");
        reveal_strlit("9");
        reveal_strlit("a");
        reveal_strlit("b");
        reveal_strlit("c");
        reveal_strlit("d");
        reveal_strlit("e");
        reveal_strlit("f");
    }
    if d == 0 {
        "0"
    } else if d == 1 {
        "1"
    } else if d == 2 {
        "2"
    } else if d == 3 {
        "3"
    } else if d == 4 {
        "4"
    } else if d == 5 {
        "5"
    } else if d == 6 {
        "6"
    } else if d == 7 {
        "7"
    } else if d == 8 {
        "8"
    } else if d == 9 {
        "9"
    } else if d == 10 {
        "a"
    } else if d == 11 {
        "b"
    } else if d == 12 {
        "c"
    } else if d == 13 {
        "d"
    } else if d == 14 {
        "e"
    } else {
        "f"
    }
}

/// Appends `n` in decimal to `s`.
pub fn push_decimal(s: &mut String, n: u64)
    ensures
        final(s)@ == old(s)@ + decimal(n as nat),
    decreases n,
{
    if n >= 10 {
        push_decimal(s, n / 10);
    }
    let d = (n % 10) as u8;
    s.append(hex_digit_str(d));
    proof {
        if n >= 10 {
            assert(decimal(n as nat) == decimal((n / 10) as nat) + seq![decimal_digit((n % 10) as nat)]);
        }
    }
}

/// `n` written in decimal.
pub fn decimal_string(n: u64) -> (s: String)
    ensures
        s@ == decimal(n as nat),
        decimal_value(s@) == n,
{
    let mut s = String::new();
    push_decimal(&mut s, n);
    assert(s@ == Seq::<char>::empty() + decimal(n as nat));
    proof {
        law_decimal_reads_back(n as nat);
    }
    s
}

/// The value a character stands for as a decimal digit: `'0'`..`'9'` are
/// 0..9; any other character is not a decimal digit (-1).
pub open spec fn decimal_char_value(c: char) -> int {
    if '0' as int <= c as int <= '9' as int {
        c as int - '0' as int
    } else {
        -1
    }
}

/// The value a character stands for as a lowercase hexadecimal digit:
/// `'0'`..`'9'` are 0..9 and `'a'`..`'f'` are 10..15; any other character
/// is not a digit (-1).
pub open spec fn hex_char_value(c: char) -> int {
    if '0' as int <= c as int <= '9' as int {
        c as int - '0' as int
    } else if 'a' as int <= c as int <= 'f' as int {
        c as int - 'a' as int + 10
    } else {
        -1
    }
}

/// The number a string of decimal digits spells, most significant first.
pub open spec fn decimal_value(s: Seq<char>) -> int
    decreases s.len(),
{
    if s.len() == 0 {
        0
    } else {
        decimal_value(s.drop_last()) * 10 + decimal_char_value(s.last())
    }
}

/// Every decimal digit is the character that reads back as its value.
pub proof fn law_decimal_digit_reads_back(d: nat)
    requires
        d < 10,
    ensures
        decimal_char_value(decimal_digit(d)) == d,
{
}

/// Every hexadecimal digit is the lowercase character that reads back as
/// its value, so distinct values get distinct digits.
pub proof fn law_hex_digit_reads_back(d: nat)
    requires
        d < 16,
    ensures
        hex_char_value(hex_digit(d)) == d,
{
    if d < 10 {
        law_decimal_digit_reads_back(d);
    }
}

/// A byte's two hexadecimal digits read back as the byte: the first is the
/// high nibble, the second the low one.
pub proof fn law_hex_byte_reads_back(b: u8)
    ensures
        hex_byte(b).len() == 2,
        16 * hex_char_value(hex_byte(b)[0]) + hex_char_value(hex_byte(b)[1]) == b,
{
    law_hex_digit_reads_back((b / 16) as nat);
    law_hex_digit_reads_back((b % 16) as nat);
}

/// A hex dump reads back as the bytes it renders: `n` bytes give `3n - 1`
/// characters (none for no bytes); the characters at `3i` and `3i + 1`
/// spell byte `i` in hexadecimal, high digit first, and a single space
/// follows every byte but the last.
pub proof fn law_hex_dump_reads_back(s: Seq<u8>)
    ensures
        hex_dump_text(s).len() == if s.len() == 0 {
            0
        } else {
            3 * s.len() - 1
        },
        forall|i: int|
            0 <= i < s.len() ==> 16 * hex_char_value(#[trigger] hex_dump_text(s)[3 * i])
                + hex_char_value(hex_dump_text(s)[3 * i + 1]) == s[i],
        forall|i: int| 0 <= i < s.len() - 1 ==> #[trigger] hex_dump_text(s)[3 * i + 2] == ' ',
    decreases s.len(),
{
    let t = hex_dump_text(s);
    if s.len() == 1 {
        law_hex_byte_reads_back(s[0]);
        assert forall|i: int|
            0 <= i < s.len() implies 16 * hex_char_value(#[trigger] t[3 * i]) + hex_char_value(t[3 * i
            + 1]) == s[i] by {
            assert(i == 0);
        }
    } else if s.len() > 1 {
        let init = s.drop_last();
        let b = s.last();
        law_hex_dump_reads_back(init);
        law_hex_byte_reads_back(b);
        let ti = hex_dump_text(init);
        let n = init.len() as int;
        assert(t == ti + seq![' '] + hex_byte(b));
        assert(ti.len() == 3 * n - 1);
        assert forall|i: int|
            0 <= i < s.len() implies 16 * hex_char_value(#[trigger] t[3 * i]) + hex_char_value(t[3 * i
            + 1]) == s[i] by {
            if i < n {
                assert(t[3 * i] == ti[3 * i]);
                assert(t[3 * i + 1] == ti[3 * i + 1]);
                assert(s[i] == init[i]);
            } else {
                assert(i == n);
                assert(t[3 * i] == hex_byte(b)[0]);
                assert(t[3 * i + 1] == hex_byte(b)[1]);
            }
        }
        assert forall|i: int| 0 <= i < s.len() - 1 implies #[trigger] t[3 * i + 2] == ' ' by {
            if i < n - 1 {
                assert(t[3 * i + 2] == ti[3 * i + 2]);
            } else {
                assert(3 * i + 2 == ti.len());
            }
        }
    }
}

/// A number's decimal text reads back as the number, and has no leading
/// zero: it starts with `'0'` only for zero itself.
pub proof fn law_decimal_reads_back(n: nat)
    ensures
        decimal(n).len() >= 1,
        decimal_value(decimal(n)) == n,
        forall|i: int| 0 <= i < decimal(n).len() ==> 0 <= #[trigger] decimal_char_value(decimal(n)[i]) < 10,
        n > 0 ==> decimal(n)[0] != '0',
    decreases n,
{
    if n < 10 {
        law_decimal_digit_reads_back(n);
        let s = decimal(n);
        assert(s.drop_last() =~= Seq::<char>::empty());
        assert(decimal_value(s) == decimal_value(s.drop_last()) * 10 + decimal_char_value(s.last()));
    } else {
        let q = n / 10;
        let r = n % 10;
        law_decimal_reads_back(q);
        law_decimal_digit_reads_back(r);
        let s = decimal(n);
        let sq = decimal(q);
        assert(s == sq + seq![decimal_digit(r)]);
        assert(s.drop_last() =~= sq);
        assert(s.last() == decimal_digit(r));
        assert(decimal_value(s) == decimal_value(sq) * 10 + decimal_char_value(decimal_digit(r)));
        assert(q * 10 + r == n);
        assert forall|i: int| 0 <= i < s.len() implies 0 <= #[trigger] decimal_char_value(s[i]) < 10 by {
            if i < sq.len() {
                assert(s[i] == sq[i]);
            }
        }
        assert(q > 0);
        assert(s[0] == sq[0]);
    }
}

} // verus!
