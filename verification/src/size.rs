//! Sizes as text.

use vstd::prelude::*;
use crate::text::{decimal, decimal_string, digit_char};

verus! {

/// Bytes in a KiB.
pub const KIB: u64 = 1024;

/// Bytes in a MiB.
pub const MIB: u64 = 1024 * 1024;

/// Bytes in a GiB.
pub const GIB: u64 = 1024 * 1024 * 1024;

/// Bytes in a TiB.
pub const TIB: u64 = 1024 * 1024 * 1024 * 1024;

/// `bytes / unit` in hundredths, rounded to the nearest; a tie goes to the
/// even one.
pub open spec fn hundredths(bytes: nat, unit: nat) -> nat
    recommends
        unit > 0,
{
    let scaled = bytes * 100;
    let whole = scaled / unit;
    let rest = scaled % unit;
    if 2 * rest > unit || (2 * rest == unit && whole % 2 == 1) {
        whole + 1
    } else {
        whole
    }
}

/// A number of hundredths written with two decimal places, as `3.07`.
pub open spec fn two_places(h: nat) -> Seq<char> {
    decimal(h / 100) + seq!['.', digit_char(h % 100 / 10), digit_char(h % 10)]
}

/// The unit a size is written in: the largest of KiB, MiB, GiB and TiB that
/// is not above it.
pub open spec fn unit_of(bytes: nat) -> u64
    recommends
        bytes >= KIB,
{
    if bytes < MIB {
        KIB
    } else if bytes < GIB {
        MIB
    } else if bytes < TIB {
        GIB
    } else {
        TIB
    }
}

/// The name of a unit.
pub open spec fn unit_name(unit: u64) -> Seq<char> {
    if unit == KIB {
        "KiB"@
    } else if unit == MIB {
        "MiB"@
    } else if unit == GIB {
        "GiB"@
    } else if unit == TIB {
        "TiB"@
    } else {
        "B"@
    }
}

/// A size as text, with two decimal places and its unit. With `raw`, and
/// below one KiB, the size is written in bytes.
pub open spec fn size_text(bytes: nat, raw: bool) -> Seq<char> {
    if raw || bytes < KIB {
        two_places(bytes * 100) + seq![' '] + unit_name(1)
    } else {
        two_places(hundredths(bytes, unit_of(bytes) as nat)) + seq![' '] + unit_name(unit_of(bytes))
    }
}

/// Writes a number of hundredths with two decimal places.
fn two_places_string(h: u128) -> (s: String)
    ensures
        s@ == two_places(h as nat),
{
    let mut s: String = decimal_string(h / 100);
    let tens: u8 = (h % 100 / 10) as u8;
    let ones: u8 = (h % 10) as u8;
    s.push('.');
    s.push((48u8 + tens) as char);
    s.push((48u8 + ones) as char);
    assert(s@ == two_places(h as nat));
    s
}

/// Writes a size, see [`size_text`].
pub fn fmt_size_str(bytes: u64, flag: bool) -> (s: String)
    ensures
        s@ == size_text(bytes as nat, flag),
{
    if bytes < KIB || flag {
        let mut s: String = two_places_string(bytes as u128 * 100);
        s.append(" B");
        proof {
            reveal_strlit(" B");
            reveal_strlit("B");
            assert(" B"@ == seq![' '] + "B"@);
        }
        return s;
    }
    let unit: u64 = if bytes < MIB {
        KIB
    } else if bytes < GIB {
        MIB
    } else if bytes < TIB {
        GIB
    } else {
        TIB
    };
    let scaled: u128 = bytes as u128 * 100;
    let whole: u128 = scaled / (unit as u128);
    let rest: u128 = scaled % (unit as u128);
    let h: u128 = if 2 * rest > unit as u128 || (2 * rest == unit as u128 && whole % 2 == 1) {
        whole + 1
    } else {
        whole
    };
    let mut s: String = two_places_string(h);
    s.push(' ');
    if unit == KIB {
        s.append("KiB");
    } else if unit == MIB {
        s.append("MiB");
    } else if unit == GIB {
        s.append("GiB");
    } else {
        s.append("TiB");
    }
    s
}

} // verus!
