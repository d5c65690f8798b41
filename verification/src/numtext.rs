//! Decimal text for chart messages and axis labels: whole numbers, and
//! fixed-point values rendered with two decimals.

use vstd::prelude::*;

verus! {

/// The character of one decimal digit.
pub open spec fn digit_char(d: int) -> char {
    if d == 0 {
        '0'
    } else if d == 1 {
        '1'
    } else if d == 2 {
        '2'
    } else if d == 3 {
        '3'
    } else if d == 4 {
        '4'
    } else if d == 5 {
        '5'
    } else if d == 6 {
        '6'
    } else if d == 7 {
        '7'
    } else if d == 8 {
        '8'
    } else {
        '9'
    }
}

/// The decimal digits of a whole number, most significant first.
pub open spec fn dec_text(n: int) -> Seq<char>
    recommends
        n >= 0,
    decreases n,
{
    if n < 10 {
        seq![digit_char(n)]
    } else {
        dec_text(n / 10).push(digit_char(n % 10))
    }
}

/// A fixed-point value rendered with two decimals: the thousandths are
/// rounded half away from zero to hundredths, then written as
/// `units.hundredths` with an optional leading minus sign.
pub open spec fn fixed_text(v: int) -> Seq<char> {
    let a = if v < 0 {
        -v
    } else {
        v
    };
    let h = (a + 5) / 10;
    let sign: Seq<char> = if v < 0 {
        seq!['-']
    } else {
        Seq::empty()
    };
    sign + dec_text(h / 100) + seq!['.'] + seq![digit_char((h % 100) / 10), digit_char(h % 10)]
}

/// Returns the text of one decimal digit.
fn digit_str(d: u64) -> (c: &'static str)
    requires
        d < 10,
    ensures
        c@ == seq![digit_char(d as int)],
{
    proof {
        reveal_strlit("0");
        reveal_strlit("1");
        reveal_strlit("2");
        reveal_strlit("3");
        reveal_strlit("4");
        reveal_strlit("5");
        reveal_strlit("6");
        reveal_strlit("7");
        reveal_strlit("8");
        reveal_strlit("9");
    }
    let c: &'static str = if d == 0 {
        "0"
    } else if d == 1 {
        "1"
    } else if d == 2 {
        "2"
    } else if d == 3 {
        "3"
    } else if d == 4 {
        "4"
    } else if d == 5 {
        "5"
    } else if d == 6 {
        "6"
    } else if d == 7 {
        "7"
    } else if d == 8 {
        "8"
    } else {
        "9"
    };
    proof {
        assert(c@ =~= seq![digit_char(d as int)]);
    }
    c
}

/// Appends the decimal text of a whole number.
pub fn push_dec(out: &mut String, n: u64)
    ensures
        final(out)@ == old(out)@ + dec_text(n as int),
    decreases n,
{
    if n < 10 {
        out.append(digit_str(n));
        proof {
            assert(old(out)@ + seq![digit_char(n as int)] =~= out@);
        }
    } else {
        push_dec(out, n / 10);
        out.append(digit_str(n % 10));
        proof {
            assert(old(out)@ + dec_text(n as int) =~= out@);
        }
    }
}

/// Returns the decimal text of a whole number.
pub fn dec_string(n: u64) -> (out: String)
    ensures
        out@ == dec_text(n as int),
{
    let mut out = String::new();
    push_dec(&mut out, n);
    proof {
        assert(Seq::<char>::empty() + dec_text(n as int) =~= dec_text(n as int));
    }
    out
}

/// Appends a fixed-point value rendered with two decimals.
pub fn push_fixed(out: &mut String, v: i64)
    requires
        v > i64::MIN,
    ensures
        final(out)@ == old(out)@ + fixed_text(v as int),
{
    let a: u64 = if v < 0 {
        (-v) as u64
    } else {
        v as u64
    };
    if v < 0 {
        out.append("-");
        proof {
            reveal_strlit("-");
            assert(out@ =~= old(out)@ + seq!['-']);
        }
    }
    let h: u64 = (a + 5) / 10;
    push_dec(out, h / 100);
    out.append(".");
    let frac: u64 = h % 100;
    out.append(digit_str(frac / 10));
    out.append(digit_str(frac % 10));
    proof {
        reveal_strlit(".");
        assert(h as int == ((if v < 0 { -(v as int) } else { v as int }) + 5) / 10);
        assert(out@ =~= old(out)@ + fixed_text(v as int));
    }
}

/// Returns a fixed-point value rendered with two decimals.
pub fn fixed_string(v: i64) -> (out: String)
    requires
        v > i64::MIN,
    ensures
        out@ == fixed_text(v as int),
{
    let mut out = String::new();
    push_fixed(&mut out, v);
    proof {
        assert(Seq::<char>::empty() + fixed_text(v as int) =~= fixed_text(v as int));
    }
    out
}

} // verus!
