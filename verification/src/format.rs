use vstd::prelude::*;

verus! {

/// One kibibyte: the divisor between size units.
pub const KB: u64 = 1024;

/// One mebibyte.
pub const MB: u64 = 1024 * 1024;

/// One gibibyte, the largest unit rendered.
pub const GB: u64 = 1024 * 1024 * 1024;

/// The character for a single decimal digit.
pub open spec fn digit_char(d: nat) -> char {
    if d == 0 {
        '0'
    } else if d == 1 {
        '1'
    } else if d == 2 {
        '2'
    } else if d == 3 {
        '3'
    } else if d == 4 {
        '4'
    } else if d == 5 {
        '5'
    } else if d == 6 {
        '6'
    } else if d == 7 {
        '7'
    } else if d == 8 {
        '8'
    } else {
        '9'
    }
}

/// The decimal rendering of a natural number, without leading zeros
/// (a single zero for the number zero).
pub open spec fn dec_rep(n: nat) -> Seq<char>
    decreases n,
{
    if n < 10 {
        seq![digit_char(n)]
    } else {
        dec_rep(n / 10).push(digit_char(n % 10))
    }
}

/// `num / den` rounded to the nearest integer, ties to even: the rounding
/// the standard two-decimal float rendering applies.
pub open spec fn round_half_even(num: nat, den: nat) -> nat
    recommends
        den > 0,
{
    let q = num / den;
    let r = num % den;
    if 2 * r > den {
        q + 1
    } else if 2 * r == den && q % 2 == 1 {
        q + 1
    } else {
        q
    }
}

/// `b / unit` rendered with exactly two decimal digits.
pub open spec fn scaled_rep(b: nat, unit: nat) -> Seq<char>
    recommends
        unit > 0,
{
    let s = round_half_even(b * 100, unit);
    dec_rep(s / 100) + seq!['.', digit_char((s % 100) / 10), digit_char(s % 10)]
}

/// The full rendering contract: bytes below one kibibyte are shown as
/// `<b> B`; otherwise the value is scaled by the largest unit (KB, MB or GB)
/// at which it is at least one, and shown with two decimal digits.
pub open spec fn human_spec(b: nat) -> Seq<char> {
    if b < 1024 {
        dec_rep(b) + seq![' ', 'B']
    } else if b < 1024 * 1024 {
        scaled_rep(b, 1024) + seq![' ', 'K', 'B']
    } else if b < 1024 * 1024 * 1024 {
        scaled_rep(b, 1024 * 1024) + seq![' ', 'M', 'B']
    } else {
        scaled_rep(b, 1024 * 1024 * 1024) + seq![' ', 'G', 'B']
    }
}

/// A one-character string for a decimal digit.
fn digit_str(d: u64) -> (r: &'static str)
    requires
        d < 10,
    ensures
        r@ =~= seq![digit_char(d as nat)],
{
    proof {
        reveal_strlit("0");
        reveal_strlit("1");
        reveal_strlit("2");
        reveal_strlit("3");
        reveal_strlit("4");
        reveal_strlit("5");
        reveal_strlit("6");
        reveal_strlit("7");
        reveal_strlit("8");
        reveal_strlit("9");
    }
    if d == 0 {
        "0"
    } else if d == 1 {
        "1"
    } else if d == 2 {
        "2"
    } else if d == 3 {
        "3"
    } else if d == 4 {
        "4"
    } else if d == 5 {
        "5"
    } else if d == 6 {
        "6"
    } else if d == 7 {
        "7"
    } else if d == 8 {
        "8"
    } else {
        "9"
    }
}

/// The decimal rendering of a 64-bit number.
pub fn u64_to_string(n: u64) -> (s: String)
    ensures
        s@ == dec_rep(n as nat),
{
    let mut s = String::new();
    let mut m: u64 = n;
    while m >= 10
        invariant
            dec_rep(n as nat) =~= dec_rep(m as nat) + s@,
        decreases m,
    {
        let d = m % 10;
        let mut t = String::from_str(digit_str(d));
        t.append(s.as_str());
        s = t;
        m = m / 10;
    }
    let mut t = String::from_str(digit_str(m));
    t.append(s.as_str());
    proof {
        assert(t@ =~= dec_rep(n as nat));
    }
    t
}

/// `bytes / unit` rendered with two decimal digits, rounding half to even.
fn scaled_string(bytes: u64, unit: u64) -> (s: String)
    requires
        1024 <= unit,
    ensures
        s@ == scaled_rep(bytes as nat, unit as nat),
{
    let num: u128 = (bytes as u128) * 100;
    let den: u128 = unit as u128;
    let q: u128 = num / den;
    let r: u128 = num % den;
    let rounded: u128 = if 2 * r > den {
        q + 1
    } else if 2 * r == den && q % 2 == 1 {
        q + 1
    } else {
        q
    };
    proof {
        assert(rounded == round_half_even((bytes as nat) * 100, unit as nat));
        assert(rounded <= num + 1);
    }
    let whole: u64 = (rounded / 100) as u64;
    let frac: u64 = (rounded % 100) as u64;
    let mut s = u64_to_string(whole);
    proof {
        reveal_strlit(".");
    }
    s.append(".");
    s.append(digit_str(frac / 10));
    s.append(digit_str(frac % 10));
    proof {
        assert(s@ =~= scaled_rep(bytes as nat, unit as nat));
    }
    s
}

/// Renders a byte count for people, as the traversal reports sizes:
/// `0 B`, `1023 B`, `1.00 KB`, `2.50 MB`, `17.25 GB`.
pub fn human_readable_size(bytes: u64) -> (s: String)
    ensures
        s@ == human_spec(bytes as nat),
{
    if bytes < KB {
        let mut s = u64_to_string(bytes);
        proof {
            reveal_strlit(" B");
        }
        s.append(" B");
        proof {
            assert(s@ =~= human_spec(bytes as nat));
        }
        s
    } else if bytes < MB {
        let mut s = scaled_string(bytes, KB);
        proof {
            reveal_strlit(" KB");
        }
        s.append(" KB");
        proof {
            assert(s@ =~= human_spec(bytes as nat));
        }
        s
    } else if bytes < GB {
        let mut s = scaled_string(bytes, MB);
        proof {
            reveal_strlit(" MB");
        }
        s.append(" MB");
        proof {
            assert(s@ =~= human_spec(bytes as nat));
        }
        s
    } else {
        let mut s = scaled_string(bytes, GB);
        proof {
            reveal_strlit(" GB");
        }
        s.append(" GB");
        proof {
            assert(s@ =~= human_spec(bytes as nat));
        }
        s
    }
}

} // verus!
