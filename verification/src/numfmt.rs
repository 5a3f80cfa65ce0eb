//! Exact decimal serialisation of fixed-point coordinates.
//!
//! Output-space values are carried in units of `FP` per pixel, so printing a
//! coordinate means printing `v / FP` with up to five decimal digits,
//! stripping trailing zeros and a trailing decimal point.

use vstd::prelude::*;
use vstd::string::StringExecFns;

verus! {

/// Fixed-point units per output pixel: one unit is the resolution of the
/// serialised coordinate format (five decimal digits).
pub const FP: i64 = 100000;

/// The character for one decimal digit.
pub open spec fn spec_digit_char(d: int) -> char {
    if d == 0 {
        '0'
    } else if d == 1 {
        '1'
    } else if d == 2 {
        '2'
    } else if d == 3 {
        '3'
    } else if d == 4 {
        '4'
    } else if d == 5 {
        '5'
    } else if d == 6 {
        '6'
    } else if d == 7 {
        '7'
    } else if d == 8 {
        '8'
    } else {
        '9'
    }
}

/// Decimal digits of a natural number, most significant first.
pub open spec fn spec_dec_digits(n: nat) -> Seq<char>
    decreases n,
{
    if n < 10 {
        seq![spec_digit_char(n as int)]
    } else {
        spec_dec_digits(n / 10) + seq![spec_digit_char((n % 10) as int)]
    }
}

/// The five zero-padded digits of a fraction `f / FP`, `0 <= f < FP`.
pub open spec fn spec_frac5(f: int) -> Seq<char> {
    seq![
        spec_digit_char(f / 10000 % 10),
        spec_digit_char(f / 1000 % 10),
        spec_digit_char(f / 100 % 10),
        spec_digit_char(f / 10 % 10),
        spec_digit_char(f % 10),
    ]
}

/// Remove every trailing `'0'`.
pub open spec fn spec_strip_zeros(s: Seq<char>) -> Seq<char>
    decreases s.len(),
{
    if s.len() > 0 && s.last() == '0' {
        spec_strip_zeros(s.drop_last())
    } else {
        s
    }
}

/// The serialised form of the fixed-point value `v` (in `FP` units per
/// pixel): optional sign, integer part, then the non-zero fraction digits
/// behind a decimal point, with trailing zeros and a bare trailing point
/// stripped.
#[verifier::opaque]
pub open spec fn spec_format_coord(v: int) -> Seq<char> {
    let m = if v < 0 {
        -v
    } else {
        v
    };
    let sign: Seq<char> = if v < 0 {
        seq!['-']
    } else {
        Seq::empty()
    };
    let whole = spec_dec_digits((m / (FP as int)) as nat);
    let frac = spec_strip_zeros(spec_frac5(m % (FP as int)));
    if frac.len() == 0 {
        sign + whole
    } else {
        sign + whole + seq!['.'] + frac
    }
}

/// Stripping trailing zeros keeps exactly the prefix in front of them.
pub proof fn lemma_strip_take(s: Seq<char>, n: int)
    requires
        0 <= n <= s.len(),
        forall|j: int| n <= j < s.len() ==> s[j] == '0',
        n == 0 || s[n - 1] != '0',
    ensures
        spec_strip_zeros(s) == s.take(n),
    decreases s.len(),
{
    if s.len() > n {
        assert(s.last() == '0');
        lemma_strip_take(s.drop_last(), n);
        assert(s.drop_last().take(n) =~= s.take(n));
    } else {
        assert(s.take(n) =~= s);
    }
}

/// Every character of a digit string is a decimal digit.
pub proof fn lemma_dec_digits_are_digits(n: nat)
    ensures
        spec_dec_digits(n).len() > 0,
        forall|j: int|
            0 <= j < spec_dec_digits(n).len() ==> '0' <= #[trigger] spec_dec_digits(n)[j]
                && spec_dec_digits(n)[j] <= '9',
    decreases n,
{
    if n >= 10 {
        lemma_dec_digits_are_digits(n / 10);
    }
}

/// Append the character for one digit.
fn push_digit(s: &mut String, d: u64)
    requires
        d < 10,
    ensures
        final (s)@ == old(s)@ + seq![spec_digit_char(d as int)],
{
    proof {
        reveal_strlit("0");
        reveal_strlit("1");
        reveal_strlit("2");
        reveal_strlit("3");
        reveal_strlit("4");
        reveal_strlit("5");
        reveal_strlit("6");
        reveal_strlit("7");
        reveal_strlit("8");
        reveal_strlit("9");
    }
    if d == 0 {
        s.append("0");
    } else if d == 1 {
        s.append("1");
    } else if d == 2 {
        s.append("2");
    } else if d == 3 {
        s.append("3");
    } else if d == 4 {
        s.append("4");
    } else if d == 5 {
        s.append("5");
    } else if d == 6 {
        s.append("6");
    } else if d == 7 {
        s.append("7");
    } else if d == 8 {
        s.append("8");
    } else {
        s.append("9");
    }
    proof {
        assert(s@ =~= old(s)@ + seq![spec_digit_char(d as int)]);
    }
}

/// Append the decimal digits of `n`.
pub fn push_dec(s: &mut String, n: u64)
    ensures
        final (s)@ == old(s)@ + spec_dec_digits(n as nat),
    decreases n,
{
    if n < 10 {
        push_digit(s, n);
    } else {
        push_dec(s, n / 10);
        push_digit(s, n % 10);
        proof {
            assert(s@ =~= old(s)@ + spec_dec_digits(n as nat));
        }
    }
}

/// The decimal form of an unsigned number.
pub fn u64_to_dec(n: u64) -> (r: String)
    ensures
        r@ == spec_dec_digits(n as nat),
{
    let mut s = String::new();
    push_dec(&mut s, n);
    proof {
        assert(s@ =~= spec_dec_digits(n as nat));
    }
    s
}

/// Serialise the fixed-point coordinate `v` (`FP` units per pixel).
///
/// The result never ends in a bare decimal point, and when it holds a
/// decimal point the last digit is never a stripped-away zero.
pub fn format_coord(v: i64) -> (r: String)
    requires
        v > i64::MIN,
    ensures
        r@ == spec_format_coord(v as int),
        r@.len() > 0,
        r@.last() != '.',
        r@.contains('.') ==> r@.last() != '0',
{
    proof {
        reveal(spec_format_coord);
    }
    let mut s = String::new();
    let m: i64 = if v < 0 {
        proof {
            reveal_strlit("-");
        }
        s.append("-");
        proof {
            assert(s@ =~= seq!['-']);
        }
        -v
    } else {
        v
    };
    let whole: u64 = (m / FP) as u64;
    let f: u64 = (m % FP) as u64;
    push_dec(&mut s, whole);
    proof {
        lemma_dec_digits_are_digits(whole as nat);
    }
    if f == 0 {
        proof {
            lemma_strip_take(spec_frac5(f as int), 0);
            assert(spec_strip_zeros(spec_frac5(f as int)) =~= Seq::<char>::empty());
            assert(s@ =~= spec_format_coord(v as int));
            assert(forall|j: int| 0 <= j < s@.len() ==> #[trigger] s@[j] != '.');
            assert(!s@.contains('.'));
        }
        return s;
    }
    let d0: u64 = f / 10000 % 10;
    let d1: u64 = f / 1000 % 10;
    let d2: u64 = f / 100 % 10;
    let d3: u64 = f / 10 % 10;
    let d4: u64 = f % 10;
    proof {
        reveal_strlit(".");
    }
    s.append(".");
    let ghost before_frac = s@;
    let n: u64 = if d4 != 0 {
        5
    } else if d3 != 0 {
        4
    } else if d2 != 0 {
        3
    } else if d1 != 0 {
        2
    } else {
        1
    };
    proof {
        // when every later digit is zero the earlier ones determine f
        assert(f < 100000);
        if n == 1 {
            assert(d1 == 0 && d2 == 0 && d3 == 0 && d4 == 0);
            assert(d0 != 0) by {
                assert(f != 0);
            }
        }
    }
    push_digit(&mut s, d0);
    if n >= 2 {
        push_digit(&mut s, d1);
    }
    if n >= 3 {
        push_digit(&mut s, d2);
    }
    if n >= 4 {
        push_digit(&mut s, d3);
    }
    if n >= 5 {
        push_digit(&mut s, d4);
    }
    proof {
        let fr = spec_frac5(f as int);
        let c0 = spec_digit_char(d0 as int);
        let c1 = spec_digit_char(d1 as int);
        let c2 = spec_digit_char(d2 as int);
        let c3 = spec_digit_char(d3 as int);
        let c4 = spec_digit_char(d4 as int);
        assert(fr =~= seq![c0, c1, c2, c3, c4]);
        assert(spec_digit_char(0) == '0');
        assert(forall|d: int| 1 <= d < 10 ==> #[trigger] spec_digit_char(d) != '0');
        lemma_strip_take(fr, n as int);
        if n == 5 {
            assert(fr.take(5) =~= seq![c0, c1, c2, c3, c4]);
            assert(s@ =~= before_frac + seq![c0, c1, c2, c3, c4]);
        } else if n == 4 {
            assert(fr.take(4) =~= seq![c0, c1, c2, c3]);
            assert(s@ =~= before_frac + seq![c0, c1, c2, c3]);
        } else if n == 3 {
            assert(fr.take(3) =~= seq![c0, c1, c2]);
            assert(s@ =~= before_frac + seq![c0, c1, c2]);
        } else if n == 2 {
            assert(fr.take(2) =~= seq![c0, c1]);
            assert(s@ =~= before_frac + seq![c0, c1]);
        } else {
            assert(d0 != 0);
            assert(fr.take(1) =~= seq![c0]);
            assert(s@ =~= before_frac + seq![c0]);
        }
        assert(s@ =~= spec_format_coord(v as int));
        assert(s@.last() != '.' && s@.last() != '0');
    }
    s
}

/// Relies on `String::push`: appends exactly the given character to the
/// end of the string.
#[verifier::external_body]
pub fn push_char(s: &mut String, c: char)
    ensures
        final (s)@ == old(s)@.push(c),
{
    s.push(c);
}

} // verus!
