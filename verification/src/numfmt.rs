//! Decimal rendering of numbers, shared by the value semantics (string
//! concatenation and mixed comparisons render numbers as text) and the
//! JavaScript emitter.

use vstd::prelude::*;

verus! {

/// The decimal digit character of a value below ten.
pub open spec fn digit_char(d: int) -> char {
    if d == 0 {
        '0'
    } else if d == 1 {
        '1'
    } else if d == 2 {
        '2'
    } else if d == 3 {
        '3'
    } else if d == 4 {
        '4'
    } else if d == 5 {
        '5'
    } else if d == 6 {
        '6'
    } else if d == 7 {
        '7'
    } else if d == 8 {
        '8'
    } else {
        '9'
    }
}

/// The decimal rendering of a non-negative number, no leading zeros.
pub open spec fn nat_dec_str(n: int) -> Seq<char>
    decreases n,
{
    if n < 10 {
        seq![digit_char(n)]
    } else {
        nat_dec_str(n / 10).push(digit_char(n % 10))
    }
}

/// The decimal rendering of a number, a leading `-` when negative.
pub open spec fn i64_dec_str(n: int) -> Seq<char> {
    if n < 0 {
        seq!['-'] + nat_dec_str(-n)
    } else {
        nat_dec_str(n)
    }
}

/// The decimal digit character of a value below ten.
fn digit_char_x(d: u64) -> (c: char)
    requires
        d < 10,
    ensures
        c == digit_char(d as int),
{
    if d == 0 {
        '0'
    } else if d == 1 {
        '1'
    } else if d == 2 {
        '2'
    } else if d == 3 {
        '3'
    } else if d == 4 {
        '4'
    } else if d == 5 {
        '5'
    } else if d == 6 {
        '6'
    } else if d == 7 {
        '7'
    } else if d == 8 {
        '8'
    } else {
        '9'
    }
}

/// The digits of a non-negative number, least significant first.
fn digits_rev(m0: u64) -> (digits: Vec<char>)
    ensures
        digits@.reverse() == nat_dec_str(m0 as int),
        digits@.len() > 0,
{
    let mut digits: Vec<char> = Vec::new();
    let mut m: u64 = m0;
    loop
        invariant_except_break
            digits@.len() == 0 ==> m == m0,
            digits@.len() > 0 && m > 0 ==> nat_dec_str(m0 as int) == nat_dec_str(m as int)
                + digits@.reverse(),
            digits@.len() > 0 && m == 0 ==> nat_dec_str(m0 as int) == digits@.reverse(),
        ensures
            digits@.len() > 0,
            nat_dec_str(m0 as int) == digits@.reverse(),
        decreases m, (if digits@.len() == 0 {
            1int
        } else {
            0int
        }),
    {
        if m == 0 && digits.len() > 0 {
            break ;
        }
        let d = m % 10;
        let c = digit_char_x(d);
        let ghost before = digits@;
        proof {
            // In mid-flight form: what remains is `m`, then the collected digits.
            assert(nat_dec_str(m0 as int) == nat_dec_str(m as int) + before.reverse());
        }
        digits.push(c);
        proof {
            assert(digits@.reverse() =~= seq![c] + before.reverse());
        }
        let m2 = m / 10;
        proof {
            if m2 > 0 {
                assert(m >= 10);
                assert(nat_dec_str(m as int) == nat_dec_str(m as int / 10).push(
                    digit_char(m as int % 10),
                ));
                assert(m as int / 10 == m2 as int);
                assert(nat_dec_str(m2 as int).push(c) + before.reverse() =~= nat_dec_str(
                    m2 as int,
                ) + (seq![c] + before.reverse()));
            } else {
                assert(m < 10);
                assert(nat_dec_str(m as int) == seq![digit_char(m as int)]);
                assert(seq![c] + before.reverse() =~= nat_dec_str(m as int) + before.reverse());
            }
        }
        m = m2;
    }
    digits
}

/// The decimal rendering of a number as a character vector.
pub fn i64_dec_chars(n: i64) -> (out: Vec<char>)
    ensures
        out@ == i64_dec_str(n as int),
{
    let neg = n < 0;
    let mag: u64 = if n < 0 {
        (!(n as u64)).wrapping_add(1)
    } else {
        n as u64
    };
    proof {
        if n < 0 {
            assert(mag == -(n as int)) by (bit_vector)
                requires
                    mag == (!(n as u64)).wrapping_add(1) && (n as i64) < 0,
            ;
        }
    }
    let digits = digits_rev(mag);
    let mut out: Vec<char> = Vec::new();
    if neg {
        out.push('-');
    }
    let n_digits = digits.len();
    let mut i: usize = 0;
    let ghost lead: Seq<char> = if neg {
        seq!['-']
    } else {
        Seq::<char>::empty()
    };
    while i < n_digits
        invariant
            i <= n_digits == digits@.len(),
            out@ =~= lead + digits@.reverse().subrange(0, i as int),
            lead == (if neg {
                seq!['-']
            } else {
                Seq::<char>::empty()
            }),
        decreases n_digits - i,
    {
        let c = digits[n_digits - 1 - i];
        out.push(c);
        proof {
            assert(digits@.reverse()[i as int] == digits@[n_digits - 1 - i]);
            assert(out@ =~= lead + digits@.reverse().subrange(0, i + 1 as int));
        }
        i += 1;
    }
    proof {
        assert(digits@.reverse().subrange(0, n_digits as int) =~= digits@.reverse());
        if neg {
            assert(out@ =~= seq!['-'] + nat_dec_str(mag as int));
        } else {
            assert(out@ =~= nat_dec_str(mag as int));
        }
    }
    out
}

/// The decimal rendering of a number as a string.
pub fn i64_to_string(n: i64) -> (s: String)
    ensures
        s@ == i64_dec_str(n as int),
{
    let chars = i64_dec_chars(n);
    crate::strutil::chars_to_string(&chars)
}

} // verus!
