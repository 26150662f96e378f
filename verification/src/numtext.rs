//! Decimal text: formatting integers as ASCII digit strings and parsing
//! them back. The radar log lines, the evidence JSON and the configuration
//! payload all carry integers in this form.

use vstd::prelude::*;

verus! {

/// ASCII decimal digit.
pub open spec fn is_digit(b: u8) -> bool {
    0x30 <= b <= 0x39
}

pub open spec fn all_digits(s: Seq<u8>) -> bool {
    forall|i: int| 0 <= i < s.len() ==> is_digit(#[trigger] s[i])
}

/// Canonical decimal digits of `n`, most significant first, no leading
/// zeros (`0` is written as one digit).
pub open spec fn dec_seq(n: nat) -> Seq<u8>
    decreases n,
{
    if n < 10 {
        seq![(0x30 + n) as u8]
    } else {
        dec_seq(n / 10).push((0x30 + n % 10) as u8)
    }
}

/// Canonical decimal text of an integer: a `-` sign for negative values,
/// then the digits of the magnitude.
pub open spec fn int_seq(i: int) -> Seq<u8> {
    if i < 0 {
        seq![0x2Du8] + dec_seq((-i) as nat)
    } else {
        dec_seq(i as nat)
    }
}

/// Value of a digit string (meaningful when `all_digits` holds).
pub open spec fn dec_val(s: Seq<u8>) -> int
    decreases s.len(),
{
    if s.len() == 0 {
        0
    } else {
        10 * dec_val(s.drop_last()) + (s.last() - 0x30)
    }
}

pub proof fn lemma_dec_seq_digits(n: nat)
    ensures
        all_digits(dec_seq(n)),
        dec_seq(n).len() >= 1,
    decreases n,
{
    if n >= 10 {
        lemma_dec_seq_digits(n / 10);
    }
}

/// Parsing the canonical digits of `n` gives back `n`.
pub proof fn lemma_dec_roundtrip(n: nat)
    ensures
        dec_val(dec_seq(n)) == n,
    decreases n,
{
    if n < 10 {
        let s = dec_seq(n);
        assert(s.len() == 1);
        assert(dec_val(s.drop_last()) == 0);
        assert(dec_val(s) == s.last() - 0x30);
        assert(s.last() == (0x30 + n) as u8);
    } else {
        lemma_dec_roundtrip(n / 10);
        assert(dec_seq(n).drop_last() =~= dec_seq(n / 10));
        assert(dec_val(dec_seq(n)) == 10 * dec_val(dec_seq(n / 10)) + ((0x30 + n % 10) as u8
            - 0x30));
    }
}

/// A digit string never parses to a negative value.
pub proof fn lemma_dec_val_nonneg(s: Seq<u8>)
    requires
        all_digits(s),
    ensures
        dec_val(s) >= 0,
    decreases s.len(),
{
    if s.len() > 0 {
        assert(all_digits(s.drop_last()));
        lemma_dec_val_nonneg(s.drop_last());
    }
}

/// Extending a digit string on the right cannot decrease its value.
pub proof fn lemma_dec_val_prefix(s: Seq<u8>, i: int)
    requires
        all_digits(s),
        0 <= i <= s.len(),
    ensures
        dec_val(s.take(i)) <= dec_val(s),
    decreases s.len() - i,
{
    if i < s.len() {
        lemma_dec_val_prefix(s, i + 1);
        assert(s.take(i + 1).drop_last() =~= s.take(i));
        assert(all_digits(s.take(i)));
        lemma_dec_val_nonneg(s.take(i));
        assert(dec_val(s.take(i + 1)) == 10 * dec_val(s.take(i)) + (s[i] - 0x30));
    } else {
        assert(s.take(i) =~= s);
    }
}

/// Canonical digits of `n`, as bytes.
pub fn format_u64(n: u64) -> (v: Vec<u8>)
    ensures
        v@ == dec_seq(n as nat),
    decreases n,
{
    if n < 10 {
        let mut v: Vec<u8> = Vec::new();
        v.push(0x30 + n as u8);
        proof {
            assert(v@ =~= dec_seq(n as nat));
        }
        v
    } else {
        let mut v = format_u64(n / 10);
        v.push(0x30 + (n % 10) as u8);
        proof {
            assert(v@ =~= dec_seq(n as nat));
        }
        v
    }
}

/// Canonical decimal text of a signed integer.
pub fn format_i64(i: i64) -> (v: Vec<u8>)
    ensures
        v@ == int_seq(i as int),
{
    if i < 0 {
        let magnitude: u64 = (-(i as i128)) as u64;
        assert(magnitude == -(i as int));
        let digits = format_u64(magnitude);
        let mut v: Vec<u8> = Vec::new();
        v.push(0x2D);
        let mut k: usize = 0;
        while k < digits.len()
            invariant
                k <= digits.len(),
                v@ == seq![0x2Du8] + digits@.take(k as int),
            decreases digits.len() - k,
        {
            v.push(digits[k]);
            k = k + 1;
            proof {
                assert(v@ =~= seq![0x2Du8] + digits@.take(k as int));
            }
        }
        proof {
            assert(digits@.take(digits@.len() as int) =~= digits@);
        }
        v
    } else {
        format_u64(i as u64)
    }
}

/// Parses a digit string, refusing values above `bound`.
///
/// Returns the value exactly when the input is a nonempty run of digits
/// whose value is at most `bound`.
pub fn parse_digits_bounded(s: &[u8], bound: u64) -> (r: Option<u64>)
    requires
        bound < 0x8000_0000_0000_0000,
    ensures
        match r {
            Some(v) => s@.len() > 0 && all_digits(s@) && dec_val(s@) == v && v <= bound,
            None => !(s@.len() > 0 && all_digits(s@) && dec_val(s@) <= bound),
        },
{
    if s.len() == 0 {
        return None;
    }
    let mut acc: u64 = 0;
    let mut i: usize = 0;
    while i < s.len()
        invariant
            i <= s@.len(),
            bound < 0x8000_0000_0000_0000,
            all_digits(s@.take(i as int)),
            acc == dec_val(s@.take(i as int)),
            acc <= bound,
        decreases s@.len() - i,
    {
        let b = s[i];
        if b < 0x30 || b > 0x39 {
            return None;
        }
        proof {
            assert(s@.take(i + 1).drop_last() =~= s@.take(i as int));
        }
        let digit: u64 = (b - 0x30) as u64;
        if acc > bound / 10 {
            proof {
                assert(10 * acc > bound);
                if all_digits(s@) {
                    lemma_dec_val_prefix(s@, i + 1);
                }
            }
            return None;
        }
        let next: u64 = 10 * acc + digit;
        if next > bound {
            proof {
                if all_digits(s@) {
                    lemma_dec_val_prefix(s@, i + 1);
                }
            }
            return None;
        }
        acc = next;
        i = i + 1;
    }
    proof {
        assert(s@.take(i as int) =~= s@);
    }
    Some(acc)
}

/// Text of an optionally signed integer literal, as `str::parse` accepts
/// it: an optional `+` or `-`, then at least one digit.
pub open spec fn unsigned_part(s: Seq<u8>) -> Seq<u8> {
    if s.len() > 0 && (s[0] == 0x2B || s[0] == 0x2D) {
        s.drop_first()
    } else {
        s
    }
}

pub open spec fn literal_negative(s: Seq<u8>) -> bool {
    s.len() > 0 && s[0] == 0x2D
}

pub open spec fn valid_int_literal(s: Seq<u8>) -> bool {
    unsigned_part(s).len() > 0 && all_digits(unsigned_part(s))
}

pub open spec fn literal_val(s: Seq<u8>) -> int {
    if literal_negative(s) {
        -dec_val(unsigned_part(s))
    } else {
        dec_val(unsigned_part(s))
    }
}

pub open spec fn valid_i16_literal(s: Seq<u8>) -> bool {
    valid_int_literal(s) && -32768 <= literal_val(s) <= 32767
}

/// Parses a 16-bit signed integer from decimal text, exactly as the radar
/// log tokens carry them.
pub fn parse_i16(s: &[u8]) -> (r: Option<i16>)
    ensures
        match r {
            Some(v) => valid_i16_literal(s@) && v as int == literal_val(s@),
            None => !valid_i16_literal(s@),
        },
{
    if s.len() == 0 {
        return None;
    }
    let first = s[0];
    let (negative, start): (bool, usize) = if first == 0x2D {
        (true, 1)
    } else if first == 0x2B {
        (false, 1)
    } else {
        (false, 0)
    };
    let rest: &[u8] = vstd::slice::slice_subrange(s, start, s.len());
    proof {
        assert(rest@ =~= unsigned_part(s@));
    }
    match parse_digits_bounded(rest, 32768) {
        None => {
            proof {
                if valid_int_literal(s@) && -32768 <= literal_val(s@) <= 32767 {
                    lemma_dec_val_nonneg(unsigned_part(s@));
                }
            }
            None
        },
        Some(v) => {
            if negative {
                proof {
                    assert(literal_negative(s@));
                }
                Some((-(v as i64)) as i16)
            } else {
                if v > 32767 {
                    None
                } else {
                    Some(v as i16)
                }
            }
        },
    }
}


/// The canonical text of a small integer is a valid literal and reads
/// back to the integer.
pub proof fn lemma_int_seq_literal(v: int)
    requires
        -32768 <= v <= 32767,
    ensures
        valid_i16_literal(int_seq(v)),
        literal_val(int_seq(v)) == v,
{
    if v < 0 {
        lemma_dec_seq_digits((-v) as nat);
        lemma_dec_roundtrip((-v) as nat);
        assert(int_seq(v)[0] == 0x2D);
        assert(unsigned_part(int_seq(v)) =~= dec_seq((-v) as nat));
    } else {
        lemma_dec_seq_digits(v as nat);
        lemma_dec_roundtrip(v as nat);
        assert(int_seq(v) =~= dec_seq(v as nat));
        assert(is_digit(int_seq(v)[0]));
        assert(unsigned_part(int_seq(v)) =~= int_seq(v));
        assert(!literal_negative(int_seq(v)));
    }
}

} // verus!
