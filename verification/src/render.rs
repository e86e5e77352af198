//! Rendering of integers as fixed-width hexadecimal and plain decimal text,
//! used by the error and stack-frame display helpers.

use vstd::prelude::*;

verus! {

/// The character for one hexadecimal digit value in `0..16`.
pub open spec fn hex_digit(d: int) -> char {
    if d == 0 {
        '0'
    } else if d == 1 {
        '1'
    } else if d == 2 {
        '2'
    } else if d == 3 {
        '3'
    } else if d == 4 {
        '4'
    } else if d == 5 {
        '5'
    } else if d == 6 {
        '6'
    } else if d == 7 {
        '7'
    } else if d == 8 {
        '8'
    } else if d == 9 {
        '9'
    } else if d == 10 {
        'a'
    } else if d == 11 {
        'b'
    } else if d == 12 {
        'c'
    } else if d == 13 {
        'd'
    } else if d == 14 {
        'e'
    } else {
        'f'
    }
}

/// The character for one decimal digit value in `0..10`.
pub open spec fn dec_digit(d: int) -> char {
    if d == 0 {
        '0'
    } else if d == 1 {
        '1'
    } else if d == 2 {
        '2'
    } else if d == 3 {
        '3'
    } else if d == 4 {
        '4'
    } else if d == 5 {
        '5'
    } else if d == 6 {
        '6'
    } else if d == 7 {
        '7'
    } else if d == 8 {
        '8'
    } else {
        '9'
    }
}

/// `v` written in hexadecimal with exactly `digits` digits, most significant
/// first; high digits that do not fit are dropped.
pub open spec fn hex_chars(v: int, digits: nat) -> Seq<char>
    decreases digits,
{
    if digits == 0 {
        Seq::empty()
    } else {
        hex_chars(v / 16, (digits - 1) as nat).push(hex_digit(v % 16))
    }
}

/// `v` written in decimal with no leading zeros (a single `'0'` for zero).
pub open spec fn dec_chars(v: int) -> Seq<char>
    decreases v,
{
    if v < 10 {
        seq![dec_digit(v)]
    } else {
        dec_chars(v / 10).push(dec_digit(v % 10))
    }
}

/// The one-character string for a hexadecimal digit value.
fn hex_digit_str(d: u64) -> (r: &'static str)
    requires
        d < 16,
    ensures
        r@.len() == 1,
        r@[0] == hex_digit(d as int),
{
    proof {
        reveal_strlit("0");
        reveal_strlit("1");
        reveal_strlit("2");
        reveal_strlit("3");
        reveal_strlit("4");
        reveal_strlit("5");
        reveal_strlit("6");
        reveal_strlit("7");
        reveal_strlit("8");
        reveal_strlit("9");
        reveal_strlit("a");
        reveal_strlit("b");
        reveal_strlit("c");
        reveal_strlit("d");
        reveal_strlit("e");
        reveal_strlit("f");
    }
    match d {
        0 => "0",
        1 => "1",
        2 => "2",
        3 => "3",
        4 => "4",
        5 => "5",
        6 => "6",
        7 => "7",
        8 => "8",
        9 => "9",
        10 => "a",
        11 => "b",
        12 => "c",
        13 => "d",
        14 => "e",
        _ => "f",
    }
}

/// The one-character string for a decimal digit value.
fn dec_digit_str(d: u64) -> (r: &'static str)
    requires
        d < 10,
    ensures
        r@.len() == 1,
        r@[0] == dec_digit(d as int),
{
    proof {
        reveal_strlit("0");
        reveal_strlit("1");
        reveal_strlit("2");
        reveal_strlit("3");
        reveal_strlit("4");
        reveal_strlit("5");
        reveal_strlit("6");
        reveal_strlit("7");
        reveal_strlit("8");
        reveal_strlit("9");
    }
    match d {
        0 => "0",
        1 => "1",
        2 => "2",
        3 => "3",
        4 => "4",
        5 => "5",
        6 => "6",
        7 => "7",
        8 => "8",
        _ => "9",
    }
}

/// Render `v` as exactly `digits` hexadecimal digits, most significant first.
pub fn u64_hex(v: u64, digits: usize) -> (s: String)
    ensures
        s@ == hex_chars(v as int, digits as nat),
    decreases digits,
{
    if digits == 0 {
        let s = String::new();
        proof {
            assert(s@ =~= hex_chars(v as int, 0));
        }
        s
    } else {
        let mut s = u64_hex(v / 16, digits - 1);
        let d = hex_digit_str(v % 16);
        s.append(d);
        proof {
            assert(s@ =~= hex_chars(v as int, digits as nat));
        }
        s
    }
}

/// Render `v` in decimal with no leading zeros.
pub fn u64_dec(v: u64) -> (s: String)
    ensures
        s@ == dec_chars(v as int),
    decreases v,
{
    if v < 10 {
        let mut s = String::new();
        s.append(dec_digit_str(v));
        proof {
            assert(s@ =~= dec_chars(v as int));
        }
        s
    } else {
        let mut s = u64_dec(v / 10);
        s.append(dec_digit_str(v % 10));
        proof {
            assert(s@ =~= dec_chars(v as int));
        }
        s
    }
}

} // verus!
