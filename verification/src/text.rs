//! Rendering numbers as text: decimal integers, fixed-point factors and
//! lowercase hexadecimal bytes.

use vstd::prelude::*;

verus! {

/// The sixteen digit characters, lowercase.
pub open spec fn digit_chars() -> Seq<char> {
    seq!['0', '1', '2', '3', '4', '5', '6', '7', '8', '9', 'a', 'b', 'c', 'd', 'e', 'f']
}

/// The character of digit `d` (`d < 16`).
pub open spec fn digit_char(d: nat) -> char {
    digit_chars()[d as int]
}

/// `n` written in base ten, most significant digit first, without leading zeros.
pub open spec fn decimal_digits(n: nat) -> Seq<char>
    decreases n,
{
    if n < 10 {
        seq![digit_char(n)]
    } else {
        decimal_digits(n / 10).push(digit_char(n % 10))
    }
}

/// The last `width` base-ten digits of `n`, with leading zeros.
pub open spec fn padded_digits(n: nat, width: nat) -> Seq<char>
    decreases width,
{
    if width == 0 {
        seq![]
    } else {
        padded_digits(n / 10, (width - 1) as nat).push(digit_char(n % 10))
    }
}

/// A fraction of `width` digits with its trailing zeros removed: the remaining
/// digits and how many there are.
pub open spec fn trimmed_fraction(frac: nat, width: nat) -> (nat, nat)
    decreases width,
{
    if width > 0 && frac % 10 == 0 {
        trimmed_fraction(frac / 10, (width - 1) as nat)
    } else {
        (frac, width)
    }
}

/// A value in millionths written as a decimal number: sign, integer part, and
/// the fractional part without trailing zeros (none at all when it is zero).
/// `10_500_000` reads `10.5`, `-250_000` reads `-0.25`, `3_000_000` reads `3`.
pub open spec fn millionths_text(v: int) -> Seq<char> {
    let mag: nat = if v < 0 {
        (-v) as nat
    } else {
        v as nat
    };
    let sign: Seq<char> = if v < 0 {
        seq!['-']
    } else {
        seq![]
    };
    let frac = trimmed_fraction(mag % 1_000_000, 6);
    let fraction: Seq<char> = if frac.1 == 0 {
        seq![]
    } else {
        seq!['.'] + padded_digits(frac.0, frac.1)
    };
    sign + decimal_digits(mag / 1_000_000) + fraction
}

/// Bytes written as lowercase hexadecimal, two digits per byte.
pub open spec fn hex_lower(bytes: Seq<u8>) -> Seq<char>
    decreases bytes.len(),
{
    if bytes.len() == 0 {
        seq![]
    } else {
        hex_lower(bytes.drop_last()) + seq![
            digit_char((bytes.last() / 16) as nat),
            digit_char((bytes.last() % 16) as nat),
        ]
    }
}

pub proof fn lemma_hex_lower_len(bytes: Seq<u8>)
    ensures
        hex_lower(bytes).len() == 2 * bytes.len(),
    decreases bytes.len(),
{
    if bytes.len() > 0 {
        lemma_hex_lower_len(bytes.drop_last());
    }
}

/// The one-character text of digit `d`.
pub fn digit_text(d: u64) -> (s: &'static str)
    requires
        d < 16,
    ensures
        s@ == seq![digit_char(d as nat)],
{
    let s = match d {
        0 => {
            proof { reveal_strlit("0"); }
            "0"
        },
        1 => {
            proof { reveal_strlit("1"); }
            "1"
        },
        2 => {
            proof { reveal_strlit("2"); }
            "2"
        },
        3 => {
            proof { reveal_strlit("3"); }
            "3"
        },
        4 => {
            proof { reveal_strlit("4"); }
            "4"
        },
        5 => {
            proof { reveal_strlit("5"); }
            "5"
        },
        6 => {
            proof { reveal_strlit("6"); }
            "6"
        },
        7 => {
            proof { reveal_strlit("7"); }
            "7"
        },
        8 => {
            proof { reveal_strlit("8"); }
            "8"
        },
        9 => {
            proof { reveal_strlit("9"); }
            "9"
        },
        10 => {
            proof { reveal_strlit("a"); }
            "a"
        },
        11 => {
            proof { reveal_strlit("b"); }
            "b"
        },
        12 => {
            proof { reveal_strlit("c"); }
            "c"
        },
        13 => {
            proof { reveal_strlit("d"); }
            "d"
        },
        14 => {
            proof { reveal_strlit("e"); }
            "e"
        },
        _ => {
            proof { reveal_strlit("f"); }
            "f"
        },
    };
    assert(s@ =~= seq![digit_char(d as nat)]);
    s
}

/// Appends `n` in base ten.
pub fn push_decimal(out: &mut String, n: u64)
    ensures
        final(out)@ == old(out)@ + decimal_digits(n as nat),
    decreases n,
{
    if n >= 10 {
        push_decimal(out, n / 10);
    }
    out.append(digit_text(n % 10));
    assert(out@ =~= old(out)@ + decimal_digits(n as nat));
}

/// Appends the last `width` base-ten digits of `n`, with leading zeros.
pub fn push_padded(out: &mut String, n: u64, width: u64)
    ensures
        final(out)@ == old(out)@ + padded_digits(n as nat, width as nat),
    decreases width,
{
    if width > 0 {
        push_padded(out, n / 10, width - 1);
        out.append(digit_text(n % 10));
    }
    assert(out@ =~= old(out)@ + padded_digits(n as nat, width as nat));
}

/// Appends a value in millionths as a decimal number (see `millionths_text`).
pub fn push_millionths(out: &mut String, v: i64)
    ensures
        final(out)@ == old(out)@ + millionths_text(v as int),
{
    let mag: u64 = if v < 0 {
        (0i128 - (v as i128)) as u64
    } else {
        v as u64
    };
    if v < 0 {
        proof { reveal_strlit("-"); }
        out.append("-");
    }
    push_decimal(out, mag / 1_000_000);
    let mut frac: u64 = mag % 1_000_000;
    let mut width: u64 = 6;
    while width > 0 && frac % 10 == 0
        invariant
            width <= 6,
            trimmed_fraction(frac as nat, width as nat) == trimmed_fraction((mag % 1_000_000) as nat, 6),
        decreases width,
    {
        frac = frac / 10;
        width = width - 1;
    }
    if width > 0 {
        proof { reveal_strlit("."); }
        out.append(".");
        push_padded(out, frac, width);
    }
    assert(out@ =~= old(out)@ + millionths_text(v as int));
}

/// `bytes` as lowercase hexadecimal.
pub fn to_hex_lower(bytes: &[u8]) -> (s: String)
    ensures
        s@ == hex_lower(bytes@),
{
    let mut s = String::new();
    let n = bytes.len();
    let mut i: usize = 0;
    while i < n
        invariant
            n == bytes@.len(),
            i <= n,
            s@ == hex_lower(bytes@.take(i as int)),
        decreases n - i,
    {
        let b = bytes[i];
        s.append(digit_text((b / 16) as u64));
        s.append(digit_text((b % 16) as u64));
        proof {
            assert(bytes@.take(i + 1).drop_last() =~= bytes@.take(i as int));
            assert(s@ =~= hex_lower(bytes@.take(i + 1)));
        }
        i = i + 1;
    }
    assert(bytes@.take(n as int) =~= bytes@);
    s
}

/// Whether two texts are equal, character for character.
pub fn same_text(a: &str, b: &str) -> (eq: bool)
    ensures
        eq == (a@ == b@),
{
    a.to_owned() == b.to_owned()
}

} // verus!
