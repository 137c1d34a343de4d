use vstd::prelude::*;

use num_format::ToFormattedString;

verus! {

/// The character of a decimal digit.
pub open spec fn digit_char(d: nat) -> char {
    if d == 0 {
        '0'
    } else if d == 1 {
        '1'
    } else if d == 2 {
        '2'
    } else if d == 3 {
        '3'
    } else if d == 4 {
        '4'
    } else if d == 5 {
        '5'
    } else if d == 6 {
        '6'
    } else if d == 7 {
        '7'
    } else if d == 8 {
        '8'
    } else {
        '9'
    }
}

/// The decimal digits of `n`, without leading zeros.
pub open spec fn decimal(n: nat) -> Seq<char>
    decreases n,
{
    if n < 10 {
        seq![digit_char(n)]
    } else {
        decimal(n / 10).push(digit_char(n % 10))
    }
}

/// Three decimal digits of `r`, with leading zeros.
pub open spec fn three_digits(r: nat) -> Seq<char> {
    seq![digit_char(r / 100), digit_char(r / 10 % 10), digit_char(r % 10)]
}

/// `n` in decimal with a comma between each group of three digits, counted
/// from the right.
pub open spec fn grouped(n: nat) -> Seq<char>
    decreases n,
{
    if n < 1000 {
        decimal(n)
    } else {
        grouped(n / 1000) + seq![','] + three_digits(n % 1000)
    }
}

/// `s` right-aligned in a field of `width` characters, padded with spaces.
pub open spec fn pad_left(s: Seq<char>, width: nat) -> Seq<char> {
    if s.len() < width {
        Seq::new((width - s.len()) as nat, |i: int| ' ') + s
    } else {
        s
    }
}

/// `s` left-aligned in a field of `width` characters, padded with spaces.
pub open spec fn pad_right(s: Seq<char>, width: nat) -> Seq<char> {
    if s.len() < width {
        s + Seq::new((width - s.len()) as nat, |i: int| ' ')
    } else {
        s
    }
}

/// Bytes in one unit: 1 is KB, 2 is MB, 3 is GB, 4 is TB, 5 is PB.
pub open spec fn unit_scale(k: nat) -> nat {
    if k == 1 {
        1_000
    } else if k == 2 {
        1_000_000
    } else if k == 3 {
        1_000_000_000
    } else if k == 4 {
        1_000_000_000_000
    } else {
        1_000_000_000_000_000
    }
}

pub open spec fn unit_name(k: nat) -> Seq<char> {
    if k == 1 {
        seq!['K', 'B']
    } else if k == 2 {
        seq!['M', 'B']
    } else if k == 3 {
        seq!['G', 'B']
    } else if k == 4 {
        seq!['T', 'B']
    } else {
        seq!['P', 'B']
    }
}

/// Whether `bytes` shown in unit `k` stays under 999.95, the largest value
/// that one decimal place does not round up to 1000.0.
pub open spec fn fits_unit(bytes: nat, k: nat) -> bool {
    100 * bytes < 99995 * unit_scale(k)
}

/// The unit a size of at least 1000 bytes is shown in: the first of KB, MB,
/// GB and TB in which it fits, and PB otherwise.
pub open spec fn unit_index(bytes: nat) -> nat {
    if fits_unit(bytes, 1) {
        1
    } else if fits_unit(bytes, 2) {
        2
    } else if fits_unit(bytes, 3) {
        3
    } else if fits_unit(bytes, 4) {
        4
    } else {
        5
    }
}

/// `bytes` in unit `k`, counted in tenths and rounded half up.
pub open spec fn rounded_tenths(bytes: nat, k: nat) -> nat {
    (20 * bytes + unit_scale(k)) / (2 * unit_scale(k))
}

/// The text of a byte count: under 1000 bytes, KB with three decimals in a
/// field of 7; otherwise the unit of `unit_index` with one decimal in a field
/// of 5 (wider in PB when the number needs it).
pub open spec fn size_text(bytes: nat) -> Seq<char> {
    if bytes < 1000 {
        pad_left(
            seq!['0', '.', digit_char(bytes / 100), digit_char(bytes / 10 % 10), digit_char(bytes % 10)],
            7,
        ) + seq![' ', 'K', 'B']
    } else {
        let k = unit_index(bytes);
        let t = rounded_tenths(bytes, k);
        pad_left(decimal(t / 10) + seq!['.', digit_char(t % 10)], 5) + seq![' '] + unit_name(k)
    }
}

fn digit_str(d: u64) -> (r: &'static str)
    requires
        d < 10,
    ensures
        r@ == seq![digit_char(d as nat)],
{
    proof {
        reveal_strlit("0");
        reveal_strlit("1");
        reveal_strlit("2");
        reveal_strlit("3");
        reveal_strlit("4");
        reveal_strlit("5");
        reveal_strlit("6");
        reveal_strlit("7");
        reveal_strlit("8");
        reveal_strlit("9");
    }
    match d {
        0 => "0",
        1 => "1",
        2 => "2",
        3 => "3",
        4 => "4",
        5 => "5",
        6 => "6",
        7 => "7",
        8 => "8",
        _ => "9",
    }
}

/// Formats a count with English digit grouping (`1,234,567`).
///
/// Relies on num_format's `ToFormattedString` with `Locale::en`, whose
/// separator is a comma and whose grouping is by three digits.
#[verifier::external_body]
pub fn format_num(num: u32) -> (r: String)
    ensures
        r@ == grouped(num as nat),
{
    num.to_formatted_string(&num_format::Locale::en)
}

/// Appends the decimal digits of `n`.
pub fn push_decimal(s: &mut String, n: u64)
    ensures
        final(s)@ == old(s)@ + decimal(n as nat),
    decreases n,
{
    if n >= 10 {
        push_decimal(s, n / 10);
    }
    s.append(digit_str(n % 10));
    assert(s@ =~= old(s)@ + decimal(n as nat));
}

/// Returns `s` right-aligned in a field of `width` characters.
pub fn padded_left(s: &str, width: usize) -> (r: String)
    ensures
        r@ == pad_left(s@, width as nat),
{
    let n = s.unicode_len();
    let mut r = String::new();
    let mut i: usize = n;
    proof {
        reveal_strlit(" ");
    }
    while i < width
        invariant
            n == s@.len(),
            n <= i <= width || (i == n && n >= width),
            r@ == Seq::new((i - n) as nat, |j: int| ' '),
        decreases width - i,
    {
        proof {
            reveal_strlit(" ");
        }
        r.append(" ");
        i = i + 1;
        assert(r@ =~= Seq::new((i - n) as nat, |j: int| ' '));
    }
    r.append(s);
    assert(r@ =~= pad_left(s@, width as nat));
    r
}

/// Returns `s` left-aligned in a field of `width` characters.
pub fn padded_right(s: &str, width: usize) -> (r: String)
    ensures
        r@ == pad_right(s@, width as nat),
{
    let n = s.unicode_len();
    let mut r = String::from_str(s);
    let mut i: usize = n;
    proof {
        reveal_strlit(" ");
    }
    while i < width
        invariant
            n == s@.len(),
            n <= i <= width || (i == n && n >= width),
            r@ == s@ + Seq::new((i - n) as nat, |j: int| ' '),
        decreases width - i,
    {
        proof {
            reveal_strlit(" ");
        }
        r.append(" ");
        i = i + 1;
        assert(r@ =~= s@ + Seq::new((i - n) as nat, |j: int| ' '));
    }
    assert(r@ =~= pad_right(s@, width as nat));
    r
}

fn unit_for(bytes: u64) -> (k: u64)
    requires
        bytes >= 1000,
    ensures
        k == unit_index(bytes as nat),
        1 <= k <= 5,
{
    let b = bytes as u128;
    if 100 * b < 99995 * 1_000 {
        1
    } else if 100 * b < 99995 * 1_000_000 {
        2
    } else if 100 * b < 99995 * 1_000_000_000 {
        3
    } else if 100 * b < 99995 * 1_000_000_000_000 {
        4
    } else {
        5
    }
}

fn scale_of(k: u64) -> (r: u64)
    requires
        1 <= k <= 5,
    ensures
        r == unit_scale(k as nat),
{
    if k == 1 {
        1_000
    } else if k == 2 {
        1_000_000
    } else if k == 3 {
        1_000_000_000
    } else if k == 4 {
        1_000_000_000_000
    } else {
        1_000_000_000_000_000
    }
}

fn unit_str(k: u64) -> (r: &'static str)
    requires
        1 <= k <= 5,
    ensures
        r@ == unit_name(k as nat),
{
    proof {
        reveal_strlit("KB");
        reveal_strlit("MB");
        reveal_strlit("GB");
        reveal_strlit("TB");
        reveal_strlit("PB");
    }
    if k == 1 {
        "KB"
    } else if k == 2 {
        "MB"
    } else if k == 3 {
        "GB"
    } else if k == 4 {
        "TB"
    } else {
        "PB"
    }
}

/// Formats a byte count with decimal units (1 KB = 1000 bytes).
///
/// Under 1000 bytes the count is shown in KB with three decimals
/// (`"  0.512 KB"`, and `"  0.000 KB"` for zero). From there on it is shown
/// with one decimal, rounded half up, in the first unit where that value
/// stays below 999.95, so that it never reads `1000.0`: 999_949 bytes is
/// `"999.9 KB"` and 999_950 bytes is `"  1.0 MB"`. PB is the last unit and
/// its number may be wider than five characters (`"1234.5 PB"`).
pub fn format_size(bytes: u64) -> (r: String)
    ensures
        r@ == size_text(bytes as nat),
{
    proof {
        reveal_strlit("0.");
        reveal_strlit(".");
        reveal_strlit(" ");
        reveal_strlit(" KB");
    }
    if bytes < 1000 {
        let mut num = String::from_str("0.");
        num.append(digit_str(bytes / 100));
        num.append(digit_str(bytes / 10 % 10));
        num.append(digit_str(bytes % 10));
        let mut r = padded_left(num.as_str(), 7);
        r.append(" KB");
        assert(r@ =~= size_text(bytes as nat));
        r
    } else {
        let k = unit_for(bytes);
        let scale = scale_of(k) as u128;
        let b = bytes as u128;
        let t128: u128 = (20 * b + scale) / (2 * scale);
        assert(t128 <= b) by (nonlinear_arith)
            requires
                t128 == (20 * b + scale) / (2 * scale),
                scale >= 1000,
                b >= 1000,
        ;
        let t = t128 as u64;
        let mut num = String::new();
        push_decimal(&mut num, t / 10);
        num.append(".");
        num.append(digit_str(t % 10));
        let mut r = padded_left(num.as_str(), 5);
        r.append(" ");
        r.append(unit_str(k));
        assert(r@ =~= size_text(bytes as nat));
        r
    }
}

} // verus!
