//! Byte counts and plain numbers as text.

use vstd::prelude::*;
use vstd::string::*;

verus! {

/// The character of the decimal digit `d`.
pub open spec fn digit(d: nat) -> char
    recommends
        d < 10,
{
    if d == 0 {
        '0'
    } else if d == 1 {
        '1'
    } else if d == 2 {
        '2'
    } else if d == 3 {
        '3'
    } else if d == 4 {
        '4'
    } else if d == 5 {
        '5'
    } else if d == 6 {
        '6'
    } else if d == 7 {
        '7'
    } else if d == 8 {
        '8'
    } else {
        '9'
    }
}

/// The decimal numeral of `n`, without sign or leading zeros.
pub open spec fn decimal(n: nat) -> Seq<char>
    decreases n,
{
    if n < 10 {
        seq![digit(n)]
    } else {
        decimal(n / 10).push(digit(n % 10))
    }
}

/// The numeral of one decimal digit.
fn digit_text(d: u64) -> (text: &'static str)
    requires
        d < 10,
    ensures
        text@ == seq![digit(d as nat)],
{
    proof {
        reveal_strlit("0");
        reveal_strlit("1");
        reveal_strlit("2");
        reveal_strlit("3");
        reveal_strlit("4");
        reveal_strlit("5");
        reveal_strlit("6");
        reveal_strlit("7");
        reveal_strlit("8");
        reveal_strlit("9");
    }
    if d == 0 {
        "0"
    } else if d == 1 {
        "1"
    } else if d == 2 {
        "2"
    } else if d == 3 {
        "3"
    } else if d == 4 {
        "4"
    } else if d == 5 {
        "5"
    } else if d == 6 {
        "6"
    } else if d == 7 {
        "7"
    } else if d == 8 {
        "8"
    } else {
        "9"
    }
}

/// Writes `n` as a decimal numeral.
pub fn decimal_text(n: u64) -> (text: String)
    ensures
        text@ == decimal(n as nat),
    decreases n,
{
    if n < 10 {
        String::from_str(digit_text(n))
    } else {
        decimal_text(n / 10).concat(digit_text(n % 10))
    }
}

/// The number of bytes in one unit of rank `rank`, for the five ranks from
/// 0, the byte, to 4, the terabyte: 1024 to that power. There is no larger
/// unit: a rank above 4 is taken as 4.
pub open spec fn unit_bytes(rank: nat) -> nat
    recommends
        rank <= 4,
{
    if rank == 0 {
        1
    } else if rank == 1 {
        1024
    } else if rank == 2 {
        1048576
    } else if rank == 3 {
        1073741824
    } else {
        1099511627776
    }
}

/// The name of the unit of rank `rank`, for the five ranks from 0 to 4: B,
/// KB, MB, GB, TB. There is no larger unit: a rank above 4 is taken as 4.
pub open spec fn unit_name(rank: nat) -> Seq<char>
    recommends
        rank <= 4,
{
    if rank == 0 {
        seq!['B']
    } else if rank == 1 {
        seq!['K', 'B']
    } else if rank == 2 {
        seq!['M', 'B']
    } else if rank == 3 {
        seq!['G', 'B']
    } else {
        seq!['T', 'B']
    }
}

/// The rank of the unit in which `size` is written: that of the largest
/// unit that is no larger than `size`, which from 1024 to the fourth on is
/// the terabyte, however large the size.
pub open spec fn unit_rank(size: nat) -> nat {
    if size < unit_bytes(1) {
        0
    } else if size < unit_bytes(2) {
        1
    } else if size < unit_bytes(3) {
        2
    } else if size < unit_bytes(4) {
        3
    } else {
        4
    }
}

/// `size` in units of `unit` bytes, in tenths, rounded to the nearest tenth
/// and, where two tenths are equally near, to the even one.
pub open spec fn tenths(size: nat, unit: nat) -> nat
    recommends
        unit > 0,
{
    let whole = (size * 10) / unit;
    let rest = (size * 10) % unit;
    if 2 * rest > unit || (2 * rest == unit && whole % 2 == 1) {
        whole + 1
    } else {
        whole
    }
}

/// How far `t` tenths of `unit` bytes are from `size` bytes, in tenths of a
/// byte.
pub open spec fn off_by(size: nat, unit: nat, t: int) -> int {
    if 10 * size >= t * unit {
        10 * size - t * unit
    } else {
        t * unit - 10 * size
    }
}

/// What [`tenths`] is: the number of tenths nearest to the size. It is at
/// most half a tenth off, and even where it is exactly half a tenth off; no
/// other number of tenths is nearer, and another that is half a tenth off
/// too is odd.
pub proof fn lemma_tenths_nearest(size: nat, unit: nat, other: int)
    requires
        unit > 0,
    ensures
        2 * off_by(size, unit, tenths(size, unit) as int) <= unit,
        2 * off_by(size, unit, tenths(size, unit) as int) == unit ==> tenths(size, unit) % 2
            == 0,
        other != tenths(size, unit) ==> off_by(size, unit, other) >= off_by(
            size,
            unit,
            tenths(size, unit) as int,
        ),
        other != tenths(size, unit) && 2 * off_by(size, unit, other) == unit ==> other % 2 != 0,
{
    let whole = (size * 10) / unit;
    let rest = (size * 10) % unit;
    let t = tenths(size, unit);
    vstd::arithmetic::div_mod::lemma_fundamental_div_mod((size * 10) as int, unit as int);
    vstd::arithmetic::div_mod::lemma_mod_bound((size * 10) as int, unit as int);
    let below = whole * unit;
    assert(10 * size == below + rest) by (nonlinear_arith)
        requires
            size * 10 == unit * whole + rest,
            below == whole * unit,
    ;
    assert((whole + 1) * unit == below + unit) by (nonlinear_arith)
        requires
            below == whole * unit,
    ;
    assert(t == whole ==> t * unit == below);
    assert(t == whole + 1 ==> t * unit == below + unit);
    if other < whole {
        assert(other * unit <= below - unit) by (nonlinear_arith)
            requires
                other <= whole - 1,
                unit > 0,
                below == whole * unit,
        ;
    } else if other > whole + 1 {
        assert(other * unit >= below + 2 * unit) by (nonlinear_arith)
            requires
                other >= whole + 2,
                unit > 0,
                below == whole * unit,
        ;
    } else if other == whole {
        assert(other * unit == below);
    } else {
        assert(other * unit == below + unit);
    }
}

/// A byte count as text in binary units: zero is `0 B`; any other count is
/// written in the largest unit among B, KB, MB, GB and TB that it reaches,
/// each 1024 times the one before, with one decimal place, a space and the
/// unit's name. A count of 1024 terabytes or more is written in terabytes
/// too.
pub open spec fn size_text(size: nat) -> Seq<char> {
    if size == 0 {
        seq!['0', ' ', 'B']
    } else {
        let rank = unit_rank(size);
        let t = tenths(size, unit_bytes(rank));
        decimal(t / 10) + seq!['.'] + decimal(t % 10) + seq![' '] + unit_name(rank)
    }
}

/// Every byte count has a text, and the text ends in a space and the name
/// of one of the five units: that of the count's rank.
pub proof fn lemma_size_text_ends_in_unit(size: nat)
    ensures
        unit_rank(size) <= 4,
        (seq![' '] + unit_name(unit_rank(size))).is_suffix_of(size_text(size)),
{
    let ending = seq![' '] + unit_name(unit_rank(size));
    let text = size_text(size);
    assert(text.subrange(text.len() - ending.len(), text.len() as int) =~= ending);
}

/// Writes a byte count in binary units with one decimal place.
pub fn get_file_size_string(size: u64) -> (text: String)
    ensures
        text@ == size_text(size as nat),
{
    proof {
        reveal_strlit("0 B");
        reveal_strlit(".");
        reveal_strlit(" B");
        reveal_strlit(" KB");
        reveal_strlit(" MB");
        reveal_strlit(" GB");
        reveal_strlit(" TB");
    }
    if size == 0 {
        return String::from_str("0 B");
    }
    let (unit, name): (u128, &'static str) = if size < 1024 {
        (1, " B")
    } else if size < 1048576 {
        (1024, " KB")
    } else if size < 1073741824 {
        (1048576, " MB")
    } else if size < 1099511627776 {
        (1073741824, " GB")
    } else {
        (1099511627776, " TB")
    };
    let scaled: u128 = size as u128 * 10;
    let whole: u128 = scaled / unit;
    let rest: u128 = scaled % unit;
    let t: u128 = if 2 * rest > unit || (2 * rest == unit && whole % 2 == 1) {
        whole + 1
    } else {
        whole
    };
    let units: u64 = (t / 10) as u64;
    let tenth: u64 = (t % 10) as u64;
    decimal_text(units).concat(".").concat(digit_text(tenth)).concat(name)
}

} // verus!
