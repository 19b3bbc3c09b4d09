use vstd::prelude::*;

verus! {

/// The character of a decimal digit.
pub open spec fn digit_char(d: nat) -> char {
    if d == 0 {
        '0'
    } else if d == 1 {
        '1'
    } else if d == 2 {
        '2'
    } else if d == 3 {
        '3'
    } else if d == 4 {
        '4'
    } else if d == 5 {
        '5'
    } else if d == 6 {
        '6'
    } else if d == 7 {
        '7'
    } else if d == 8 {
        '8'
    } else {
        '9'
    }
}

/// The decimal notation of a natural number, without leading zeros.
pub open spec fn decimal(n: nat) -> Seq<char>
    decreases n,
{
    if n < 10 {
        seq![digit_char(n)]
    } else {
        decimal(n / 10) + seq![digit_char(n % 10)]
    }
}

/// The decimal notation of an integer, with a leading `-` when it is negative.
pub open spec fn signed_decimal(v: int) -> Seq<char> {
    if v < 0 {
        seq!['-'] + decimal((-v) as nat)
    } else {
        decimal(v as nat)
    }
}

/// A one-character string holding the digit `d`.
pub(crate) fn digit_string(d: u128) -> (s: String)
    requires
        d < 10,
    ensures
        s@ == seq![digit_char(d as nat)],
{
    proof {
        reveal_strlit("0");
        reveal_strlit("1");
        reveal_strlit("2");
        reveal_strlit("3");
        reveal_strlit("4");
        reveal_strlit("5");
        reveal_strlit("6");
        reveal_strlit("7");
        reveal_strlit("8");
        reveal_strlit("9");
    }
    let s = if d == 0 {
        "0"
    } else if d == 1 {
        "1"
    } else if d == 2 {
        "2"
    } else if d == 3 {
        "3"
    } else if d == 4 {
        "4"
    } else if d == 5 {
        "5"
    } else if d == 6 {
        "6"
    } else if d == 7 {
        "7"
    } else if d == 8 {
        "8"
    } else {
        "9"
    };
    assert(s@ =~= seq![digit_char(d as nat)]);
    s.to_owned()
}

/// Writes a natural number in decimal.
pub fn decimal_string(n: u128) -> (s: String)
    ensures
        s@ == decimal(n as nat),
{
    let mut m: u128 = n;
    let mut acc = String::new();
    loop
        invariant
            decimal(n as nat) == decimal(m as nat) + acc@,
        decreases m,
    {
        let mut piece = digit_string(m % 10);
        piece.append(acc.as_str());
        if m < 10 {
            assert(decimal(m as nat) + acc@ =~= piece@);
            return piece;
        }
        assert(decimal(m as nat) + acc@ =~= decimal((m / 10) as nat) + piece@);
        acc = piece;
        m = m / 10;
    }
}

/// Writes an integer in decimal, as `format!("{}", v)` does.
pub fn signed_decimal_string(v: i64) -> (s: String)
    ensures
        s@ == signed_decimal(v as int),
{
    if v < 0 {
        let magnitude: u128 = (0i128 - (v as i128)) as u128;
        let digits = decimal_string(magnitude);
        let mut s = "-".to_owned();
        proof {
            reveal_strlit("-");
        }
        s.append(digits.as_str());
        assert(s@ =~= signed_decimal(v as int));
        s
    } else {
        decimal_string(v as u128)
    }
}

/// A character is a decimal digit.
pub open spec fn is_digit(c: char) -> bool {
    '0' <= c && c <= '9'
}

/// Every character is a decimal digit, and there is at least one.
pub open spec fn all_digits(t: Seq<char>) -> bool {
    t.len() > 0 && forall|k: int| 0 <= k < t.len() ==> is_digit(#[trigger] t[k])
}

/// The value of a text of decimal digits, read from the left.
pub open spec fn digits_value(t: Seq<char>) -> int
    decreases t.len(),
{
    if t.len() == 0 {
        0
    } else {
        digits_value(t.drop_last()) * 10 + ((t.last() as int) - ('0' as int))
    }
}

/// The value of a text of decimal digits that may start with a minus sign.
pub open spec fn signed_digits_value(t: Seq<char>) -> int {
    if t.len() > 0 && t[0] == '-' {
        -digits_value(t.drop_first())
    } else {
        digits_value(t)
    }
}

/// The text has decimal digits only, after an optional leading minus sign.
pub open spec fn is_signed_digits(t: Seq<char>) -> bool {
    all_digits(t) || (t.len() > 0 && t[0] == '-' && all_digits(t.drop_first()))
}

proof fn lemma_digit_char_value(d: nat)
    requires
        d < 10,
    ensures
        (digit_char(d) as int) - ('0' as int) == d,
        is_digit(digit_char(d)),
{
}

/// Read back as a decimal integer, the decimal notation of `n` is `n`, and it is made of
/// digits only.
pub proof fn lemma_decimal_reads_back(n: nat)
    ensures
        all_digits(decimal(n)),
        digits_value(decimal(n)) == n,
    decreases n,
{
    lemma_digit_char_value(n % 10);
    if n < 10 {
        let t = decimal(n);
        assert(t.drop_last() =~= Seq::<char>::empty());
        assert(digits_value(t.drop_last()) == 0);
        assert(t.last() == digit_char(n));
        assert(digits_value(t) == n);
    } else {
        lemma_decimal_reads_back(n / 10);
        let t = decimal(n);
        assert(t.drop_last() =~= decimal(n / 10));
        assert(t.last() == digit_char(n % 10));
        assert(digits_value(t) == (n / 10) * 10 + n % 10);
        assert forall|k: int| 0 <= k < t.len() implies is_digit(#[trigger] t[k]) by {
            if k < t.len() - 1 {
                assert(t[k] == decimal(n / 10)[k]);
            }
        }
    }
}

/// Read back as a signed decimal integer, the notation of `v` is `v`.
pub proof fn lemma_signed_decimal_reads_back(v: int)
    ensures
        is_signed_digits(signed_decimal(v)),
        signed_digits_value(signed_decimal(v)) == v,
{
    if v < 0 {
        let m = (-v) as nat;
        lemma_decimal_reads_back(m);
        let t = signed_decimal(v);
        assert(t.drop_first() =~= decimal(m));
        assert(t[0] == '-');
    } else {
        lemma_decimal_reads_back(v as nat);
        let t = decimal(v as nat);
        if t.len() > 0 && t[0] == '-' {
            assert(is_digit(t[0]));
        }
    }
}

} // verus!
