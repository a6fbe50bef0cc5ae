//! Unsigned decimal numerals as they appear on the wire.

use vstd::prelude::*;

verus! {

/// Whether `b` is one of the ASCII digits `0` to `9`.
pub open spec fn is_digit(b: u8) -> bool {
    48 <= b <= 57
}

/// Whether every byte of `s` is an ASCII digit.
pub open spec fn all_digits(s: Seq<u8>) -> bool {
    forall|i: int| 0 <= i < s.len() ==> is_digit(#[trigger] s[i])
}

/// The number that the digits of `s` denote, most significant digit first.
pub open spec fn digits_value(s: Seq<u8>) -> nat
    decreases s.len(),
{
    if s.len() == 0 {
        0
    } else {
        digits_value(s.drop_last()) * 10 + (s.last() - 48) as nat
    }
}

/// The value of a numeral: `s` must be one or more digits (leading zeros
/// are allowed) and denote a number that fits in 64 bits.
pub open spec fn parse_decimal(s: Seq<u8>) -> Option<u64> {
    if s.len() > 0 && all_digits(s) && digits_value(s) <= u64::MAX {
        Some(digits_value(s) as u64)
    } else {
        None
    }
}

/// The shortest numeral that denotes `n`.
pub open spec fn decimal(n: nat) -> Seq<u8>
    decreases n,
{
    if n < 10 {
        seq![(48 + n) as u8]
    } else {
        decimal(n / 10).push((48 + n % 10) as u8)
    }
}

/// A numeral written by `decimal` is read back by `digits_value`.
pub proof fn lemma_decimal_value(n: nat)
    ensures
        decimal(n).len() > 0,
        all_digits(decimal(n)),
        digits_value(decimal(n)) == n,
    decreases n,
{
    if n < 10 {
        let s = decimal(n);
        assert(s.drop_last() =~= Seq::<u8>::empty());
        assert(digits_value(s.drop_last()) == 0);
    } else {
        lemma_decimal_value(n / 10);
        let p = decimal(n / 10);
        let s = decimal(n);
        assert(s.drop_last() =~= p);
        assert(s.last() == (48 + n % 10) as u8);
    }
}

/// A prefix of a numeral denotes no more than the whole numeral.
pub proof fn lemma_digits_value_prefix(s: Seq<u8>, k: int)
    requires
        0 <= k <= s.len(),
        all_digits(s),
    ensures
        digits_value(s.take(k)) <= digits_value(s),
    decreases s.len(),
{
    if k == s.len() {
        assert(s.take(k) =~= s);
    } else {
        let p = s.drop_last();
        assert(all_digits(p)) by {
            assert forall|i: int| 0 <= i < p.len() implies is_digit(#[trigger] p[i]) by {
                assert(p[i] == s[i]);
            }
        }
        lemma_digits_value_prefix(p, k);
        assert(p.take(k) =~= s.take(k));
        assert(is_digit(s[s.len() - 1]));
    }
}

/// Whether `line` is one or more ASCII digits and nothing else.
pub fn is_numeral(line: &[u8]) -> (r: bool)
    ensures
        r == (line@.len() > 0 && all_digits(line@)),
{
    if line.len() == 0 {
        return false;
    }
    let mut i: usize = 0;
    while i < line.len()
        invariant
            i <= line.len(),
            forall|j: int| 0 <= j < i ==> is_digit(#[trigger] line@[j]),
        decreases line.len() - i,
    {
        let b: u8 = line[i];
        if b < 48 || b > 57 {
            assert(!is_digit(line@[i as int]));
            return false;
        }
        i += 1;
    }
    true
}

/// Reads a numeral: the number that `line` denotes, or `None` where `line`
/// is empty, holds a byte that is no digit, or denotes more than 64 bits hold.
pub fn read_decimal(line: &[u8]) -> (r: Option<u64>)
    ensures
        r == parse_decimal(line@),
{
    if line.len() == 0 {
        return None;
    }
    let mut acc: u64 = 0;
    let mut i: usize = 0;
    while i < line.len()
        invariant
            0 <= i <= line.len(),
            all_digits(line@.take(i as int)),
            acc == digits_value(line@.take(i as int)),
        decreases line.len() - i,
    {
        let b: u8 = line[i];
        if b < 48 || b > 57 {
            assert(!is_digit(line@[i as int]));
            return None;
        }
        let d: u64 = (b - 48) as u64;
        let ghost head = line@.take(i as int);
        let ghost next = line@.take(i + 1);
        proof {
            assert(next.drop_last() =~= head);
            assert(next.last() == b);
            assert(digits_value(next) == acc * 10 + d);
            assert forall|j: int| 0 <= j < next.len() implies is_digit(#[trigger] next[j]) by {
                if j < i {
                    assert(next[j] == head[j]);
                }
            }
        }
        if acc > (u64::MAX - d) / 10 {
            proof {
                if all_digits(line@) {
                    lemma_digits_value_prefix(line@, i + 1);
                }
            }
            return None;
        }
        acc = acc * 10 + d;
        i += 1;
    }
    assert(line@.take(i as int) =~= line@);
    Some(acc)
}

/// Appends the shortest numeral of `n` to `buf`.
pub fn write_decimal(buf: &mut Vec<u8>, n: u64)
    ensures
        final(buf)@ == old(buf)@ + decimal(n as nat),
    decreases n,
{
    if n >= 10 {
        write_decimal(buf, n / 10);
    }
    let d: u8 = (48 + n % 10) as u8;
    buf.push(d);
    assert(buf@ =~= old(buf)@ + decimal(n as nat));
}

} // verus!
