//! Decimal notation of unsigned integers, as `{}` formats them.
use vstd::prelude::*;

verus! {

/// The character of a decimal digit.
pub open spec fn digit_char(d: nat) -> char {
    if d == 0 {
        '0'
    } else if d == 1 {
        '1'
    } else if d == 2 {
        '2'
    } else if d == 3 {
        '3'
    } else if d == 4 {
        '4'
    } else if d == 5 {
        '5'
    } else if d == 6 {
        '6'
    } else if d == 7 {
        '7'
    } else if d == 8 {
        '8'
    } else {
        '9'
    }
}

/// The decimal notation of `v`: its digits, most significant first, with no leading zero
/// (and "0" for zero).
pub open spec fn decimal(v: nat) -> Seq<char>
    decreases v,
{
    if v < 10 {
        seq![digit_char(v)]
    } else {
        decimal(v / 10).push(digit_char(v % 10))
    }
}

fn digit_str(d: u8) -> (res: &'static str)
    requires
        d < 10,
    ensures
        res@ == seq![digit_char(d as nat)],
{
    match d {
        0 => {
            proof { reveal_strlit("0"); }
            "0"
        },
        1 => {
            proof { reveal_strlit("1"); }
            "1"
        },
        2 => {
            proof { reveal_strlit("2"); }
            "2"
        },
        3 => {
            proof { reveal_strlit("3"); }
            "3"
        },
        4 => {
            proof { reveal_strlit("4"); }
            "4"
        },
        5 => {
            proof { reveal_strlit("5"); }
            "5"
        },
        6 => {
            proof { reveal_strlit("6"); }
            "6"
        },
        7 => {
            proof { reveal_strlit("7"); }
            "7"
        },
        8 => {
            proof { reveal_strlit("8"); }
            "8"
        },
        _ => {
            proof { reveal_strlit("9"); }
            "9"
        },
    }
}

/// Writes `v` in decimal.
pub fn decimal_string(v: u128) -> (res: String)
    ensures
        res@ == decimal(v as nat),
    decreases v,
{
    if v < 10 {
        digit_str(v as u8).to_owned()
    } else {
        let mut s = decimal_string(v / 10);
        s.append(digit_str((v % 10) as u8));
        s
    }
}

/// The number that a string of decimal digits stands for, most significant first.
pub open spec fn digits_value(s: Seq<char>) -> int
    decreases s.len(),
{
    if s.len() == 0 {
        0
    } else {
        digits_value(s.drop_last()) * 10 + (s.last() as int - '0' as int)
    }
}

proof fn lemma_digit_char_value(d: nat)
    requires
        d < 10,
    ensures
        digit_char(d) as int - '0' as int == d,
        '0' <= digit_char(d) <= '9',
{
}

/// The decimal notation of `v` is made of the digits '0' to '9' only, stands for `v`, and
/// does not start with '0' unless it is "0".
pub proof fn lemma_decimal_notation(v: nat)
    ensures
        decimal(v).len() >= 1,
        forall|i: int| 0 <= i < decimal(v).len() ==> '0' <= #[trigger] decimal(v)[i] <= '9',
        digits_value(decimal(v)) == v,
        v > 0 ==> decimal(v)[0] != '0',
        v == 0 ==> decimal(v) == seq!['0'],
    decreases v,
{
    lemma_digit_char_value(v % 10);
    if v < 10 {
        assert(decimal(v).drop_last() =~= Seq::<char>::empty());
        assert(v % 10 == v);
        assert(digits_value(decimal(v)) == digits_value(Seq::<char>::empty()) * 10 + (digit_char(v) as int
            - '0' as int));
    } else {
        lemma_decimal_notation(v / 10);
        assert(v == (v / 10) * 10 + v % 10) by (nonlinear_arith);
        let d = decimal(v / 10);
        assert(decimal(v).drop_last() == d);
        assert(decimal(v).last() == digit_char(v % 10));
        assert(digits_value(decimal(v)) == digits_value(d) * 10 + (digit_char(v % 10) as int - '0' as int));
        assert(decimal(v)[0] == d[0]);
        assert forall|i: int| 0 <= i < decimal(v).len() implies '0' <= #[trigger] decimal(v)[i] <= '9' by {
            if i < d.len() {
                assert(decimal(v)[i] == d[i]);
            }
        }
    }
}

} // verus!
