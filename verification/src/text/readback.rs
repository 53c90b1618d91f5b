//! Numbers and bytes can be read back from their texts.
use vstd::prelude::*;

use crate::text::numbers::{decimal, decimal_int, hex_byte, hex_char, hex_padded, hex_text};

verus! {

/// The value of a decimal digit.
pub open spec fn digit_value(c: char) -> int {
    c as int - '0' as int
}

/// The number that decimal digits denote, the most significant first.
pub open spec fn number_read(s: Seq<char>) -> int
    decreases s.len(),
{
    if s.len() == 0 {
        0
    } else {
        10 * number_read(s.drop_last()) + digit_value(s.last())
    }
}

/// The decimal text of a number consists of digits, has no leading zero, and
/// denotes the number.
pub proof fn law_decimal_reads_back(n: nat)
    ensures
        number_read(decimal(n)) == n,
        decimal(n).len() >= 1,
        n > 0 ==> decimal(n)[0] != '0',
        n < 10 ==> decimal(n).len() == 1,
        forall|i: int| 0 <= i < decimal(n).len() ==> '0' <= #[trigger] decimal(n)[i] <= '9',
    decreases n,
{
    let s = decimal(n);
    if n >= 10 {
        law_decimal_reads_back(n / 10);
        assert(s.drop_last() =~= decimal(n / 10));
    } else {
        assert(number_read(s.drop_last()) == 0);
    }
}

/// Below zero a minus sign stands before the digits of the magnitude, and
/// nowhere else.
pub proof fn law_signed_decimal_reads_back(n: int)
    ensures
        n < 0 ==> decimal_int(n)[0] == '-' && number_read(decimal_int(n).skip(1)) == -n,
        n >= 0 ==> decimal_int(n)[0] != '-' && number_read(decimal_int(n)) == n,
{
    if n < 0 {
        law_decimal_reads_back((-n) as nat);
        assert(decimal_int(n).skip(1) =~= decimal((-n) as nat));
    } else {
        law_decimal_reads_back(n as nat);
        assert('0' <= decimal(n as nat)[0]);
    }
}

/// The value of a lower-case hexadecimal digit.
pub open spec fn hex_value(c: char) -> int {
    if '0' <= c <= '9' {
        c as int - '0' as int
    } else {
        10 + c as int - 'a' as int
    }
}

/// A lower-case hexadecimal digit.
pub open spec fn is_lower_hex(c: char) -> bool {
    '0' <= c <= '9' || 'a' <= c <= 'f'
}

proof fn lemma_hex_char(d: int)
    requires
        0 <= d < 16,
    ensures
        hex_value(hex_char(d)) == d,
        is_lower_hex(hex_char(d)),
{
}

/// Every byte is read back from its two lower-case hexadecimal digits, the high
/// one first.
pub proof fn law_hex_reads_back(b: Seq<u8>)
    ensures
        hex_text(b).len() == 2 * b.len(),
        forall|i: int|
            0 <= i < b.len() ==> 16 * hex_value(hex_text(b)[2 * i]) + hex_value(
                hex_text(b)[2 * i + 1],
            ) == #[trigger] b[i],
        forall|i: int| 0 <= i < hex_text(b).len() ==> is_lower_hex(#[trigger] hex_text(b)[i]),
    decreases b.len(),
{
    if b.len() > 0 {
        let init = b.drop_last();
        let h = hex_text(b);
        let x = b.last();
        law_hex_reads_back(init);
        lemma_hex_char((x / 16) as int);
        lemma_hex_char((x % 16) as int);
        assert(h.len() == hex_text(init).len() + hex_byte(x).len());
        assert forall|i: int| 0 <= i < b.len() implies 16 * hex_value(h[2 * i]) + hex_value(
            h[2 * i + 1],
        ) == #[trigger] b[i] by {
            if i < init.len() {
                assert(init[i] == b[i]);
                assert(h[2 * i] == hex_text(init)[2 * i]);
                assert(h[2 * i + 1] == hex_text(init)[2 * i + 1]);
            }
        }
        assert forall|i: int| 0 <= i < h.len() implies is_lower_hex(#[trigger] h[i]) by {
            if i < hex_text(init).len() {
                assert(is_lower_hex(hex_text(init)[i]));
            }
        }
    }
}

/// Different bytes have different texts.
pub proof fn law_hex_tells_bytes_apart(a: Seq<u8>, b: Seq<u8>)
    ensures
        hex_text(a) == hex_text(b) <==> a == b,
{
    law_hex_reads_back(a);
    law_hex_reads_back(b);
    if hex_text(a) == hex_text(b) {
        assert forall|i: int| 0 <= i < a.len() implies a[i] == b[i] by {}
        assert(a =~= b);
    }
}

/// The number that lower-case hexadecimal digits denote.
pub open spec fn hex_number_read(s: Seq<char>) -> int
    decreases s.len(),
{
    if s.len() == 0 {
        0
    } else {
        16 * hex_number_read(s.drop_last()) + hex_value(s.last())
    }
}

/// A padded hexadecimal number denotes the number and has at least as many
/// digits as asked for.
pub proof fn law_padded_hex_reads_back(n: nat, width: nat)
    ensures
        hex_number_read(hex_padded(n, width)) == n,
        hex_padded(n, width).len() >= width,
        forall|i: int|
            0 <= i < hex_padded(n, width).len() ==> is_lower_hex(
                #[trigger] hex_padded(n, width)[i],
            ),
    decreases n, width,
{
    if n > 0 || width > 0 {
        let less: nat = if width == 0 {
            0
        } else {
            (width - 1) as nat
        };
        law_padded_hex_reads_back(n / 16, less);
        lemma_hex_char((n % 16) as int);
        assert(hex_padded(n, width).drop_last() =~= hex_padded(n / 16, less));
    }
}

} // verus!
