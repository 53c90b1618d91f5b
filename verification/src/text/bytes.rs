//! Tests over byte strings.
use vstd::prelude::*;

use crate::text::chars::{
    byte_is_alpha, byte_is_digit, byte_is_hex, byte_is_hex_letter, is_alpha, is_digit, is_hex,
    is_hex_letter,
};
use crate::text::seqs::{count_of, count_where, equals};

verus! {

/// Some byte is an ASCII letter.
pub open spec fn some_alpha(b: Seq<u8>) -> bool {
    exists|i: int| 0 <= i < b.len() && is_alpha(#[trigger] b[i])
}

/// Some byte is a decimal digit.
pub open spec fn some_digit(b: Seq<u8>) -> bool {
    exists|i: int| 0 <= i < b.len() && is_digit(#[trigger] b[i])
}

/// Some byte is a letter of the hexadecimal digits.
pub open spec fn some_hex_letter(b: Seq<u8>) -> bool {
    exists|i: int| 0 <= i < b.len() && is_hex_letter(#[trigger] b[i])
}

/// Every byte is a decimal digit.
pub open spec fn all_digits(b: Seq<u8>) -> bool {
    forall|i: int| 0 <= i < b.len() ==> is_digit(#[trigger] b[i])
}

/// Every byte is a hexadecimal digit.
pub open spec fn all_hex(b: Seq<u8>) -> bool {
    forall|i: int| 0 <= i < b.len() ==> is_hex(#[trigger] b[i])
}

/// The number that a string of decimal digits denotes.
pub open spec fn decimal_value(b: Seq<u8>) -> nat
    decreases b.len(),
{
    if b.len() == 0 {
        0
    } else {
        decimal_value(b.drop_last()) * 10 + (b.last() - 0x30) as nat
    }
}

pub fn has_alpha(b: &[u8]) -> (r: bool)
    ensures
        r == some_alpha(b@),
{
    for i in 0..b.len()
        invariant
            forall|j: int| 0 <= j < i ==> !is_alpha(#[trigger] b@[j]),
    {
        if byte_is_alpha(b[i]) {
            return true;
        }
    }
    false
}

pub fn has_digit(b: &[u8]) -> (r: bool)
    ensures
        r == some_digit(b@),
{
    for i in 0..b.len()
        invariant
            forall|j: int| 0 <= j < i ==> !is_digit(#[trigger] b@[j]),
    {
        if byte_is_digit(b[i]) {
            return true;
        }
    }
    false
}

pub fn has_hex_letter(b: &[u8]) -> (r: bool)
    ensures
        r == some_hex_letter(b@),
{
    for i in 0..b.len()
        invariant
            forall|j: int| 0 <= j < i ==> !is_hex_letter(#[trigger] b@[j]),
    {
        if byte_is_hex_letter(b[i]) {
            return true;
        }
    }
    false
}

pub fn only_digits(b: &[u8]) -> (r: bool)
    ensures
        r == all_digits(b@),
{
    for i in 0..b.len()
        invariant
            forall|j: int| 0 <= j < i ==> is_digit(#[trigger] b@[j]),
    {
        if !byte_is_digit(b[i]) {
            return false;
        }
    }
    true
}

pub fn only_hex(b: &[u8]) -> (r: bool)
    ensures
        r == all_hex(b@),
{
    for i in 0..b.len()
        invariant
            forall|j: int| 0 <= j < i ==> is_hex(#[trigger] b@[j]),
    {
        if !byte_is_hex(b[i]) {
            return false;
        }
    }
    true
}

pub fn has_byte(b: &[u8], x: u8) -> (r: bool)
    ensures
        r == b@.contains(x),
{
    for i in 0..b.len()
        invariant
            forall|j: int| 0 <= j < i ==> b@[j] != x,
    {
        if b[i] == x {
            return true;
        }
    }
    false
}

/// How often `x` occurs in `b`.
pub fn byte_count(b: &[u8], x: u8) -> (n: usize)
    ensures
        n == count_of(b@, x),
{
    let mut n: usize = 0;
    assert(b@.take(0) =~= Seq::empty());
    for i in 0..b.len()
        invariant
            n == count_where(b@.take(i as int), equals(x)),
            n <= i,
    {
        assert(b@.take(i + 1).drop_last() =~= b@.take(i as int));
        if b[i] == x {
            n = n + 1;
        }
    }
    assert(b@.take(b@.len() as int) =~= b@);
    n
}

} // verus!
