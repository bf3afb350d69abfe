use vstd::prelude::*;

verus! {

use vstd::string::StringExecFns;

/// Numeric value of a decimal digit character; ten marks a non-digit.
pub open spec fn char_digit(c: char) -> nat {
    if c == '0' {
        0
    } else if c == '1' {
        1
    } else if c == '2' {
        2
    } else if c == '3' {
        3
    } else if c == '4' {
        4
    } else if c == '5' {
        5
    } else if c == '6' {
        6
    } else if c == '7' {
        7
    } else if c == '8' {
        8
    } else if c == '9' {
        9
    } else {
        10
    }
}

/// The character for a digit value below ten.
pub open spec fn digit_char(d: nat) -> char {
    if d == 0 {
        '0'
    } else if d == 1 {
        '1'
    } else if d == 2 {
        '2'
    } else if d == 3 {
        '3'
    } else if d == 4 {
        '4'
    } else if d == 5 {
        '5'
    } else if d == 6 {
        '6'
    } else if d == 7 {
        '7'
    } else if d == 8 {
        '8'
    } else {
        '9'
    }
}

/// A non-empty sequence of decimal digit characters.
pub open spec fn is_decimal(s: Seq<char>) -> bool {
    s.len() >= 1 && forall|i: int| 0 <= i < s.len() ==> char_digit(s[i]) < 10
}

/// The unsigned value denoted by a sequence of decimal digits.
pub open spec fn dec_value(s: Seq<char>) -> nat
    decreases s.len(),
{
    if s.len() == 0 {
        0
    } else {
        10 * dec_value(s.drop_last()) + char_digit(s.last())
    }
}

/// The canonical decimal rendering of a natural number: no leading
/// zeros, and a single `'0'` for zero.
pub open spec fn dec_of(n: nat) -> Seq<char>
    decreases n,
{
    if n < 10 {
        seq![digit_char(n)]
    } else {
        dec_of(n / 10).push(digit_char(n % 10))
    }
}

/// The canonical rendering consists of digits and denotes the number it
/// was built from: rendering and `dec_value` are mutually inverse.
pub proof fn lemma_dec_of_correct(n: nat)
    ensures
        is_decimal(dec_of(n)),
        dec_value(dec_of(n)) == n,
    decreases n,
{
    if n < 10 {
        let t = seq![digit_char(n)];
        assert(t.drop_last() =~= Seq::<char>::empty());
        assert(dec_value(Seq::<char>::empty()) == 0);
        assert(t.last() == digit_char(n));
        assert(dec_value(t) == char_digit(digit_char(n)));
    } else {
        lemma_dec_of_correct(n / 10);
        let s = dec_of(n / 10);
        let t = s.push(digit_char(n % 10));
        assert(t.drop_last() =~= s);
        assert(dec_value(t) == 10 * (n / 10) + char_digit(digit_char(n % 10)));
        vstd::arithmetic::div_mod::lemma_fundamental_div_mod(n as int, 10);
        assert forall|i: int| 0 <= i < t.len() implies char_digit(t[i]) < 10 by {
            if i < s.len() {
                assert(char_digit(s[i]) < 10);
            }
        }
    }
}

/// A longer run of digits never denotes a smaller value: the value of a
/// prefix is at most the value of the whole sequence.
pub proof fn lemma_dec_value_prefix(s: Seq<char>, j: int)
    requires
        0 <= j <= s.len(),
    ensures
        dec_value(s.take(j)) <= dec_value(s),
    decreases s.len() - j,
{
    if j == s.len() {
        assert(s.take(j) =~= s);
    } else {
        assert(s.take(j + 1).drop_last() =~= s.take(j));
        assert(dec_value(s.take(j + 1)) == 10 * dec_value(s.take(j)) + char_digit(
            s.take(j + 1).last(),
        ));
        lemma_dec_value_prefix(s, j + 1);
    }
}

/// Classify a character as a decimal digit.
pub fn char_to_digit(c: char) -> (r: Option<u8>)
    ensures
        match r {
            Some(d) => d < 10 && char_digit(c) == d as nat,
            None => char_digit(c) == 10,
        },
{
    match c {
        '0' => Some(0),
        '1' => Some(1),
        '2' => Some(2),
        '3' => Some(3),
        '4' => Some(4),
        '5' => Some(5),
        '6' => Some(6),
        '7' => Some(7),
        '8' => Some(8),
        '9' => Some(9),
        _ => None,
    }
}

fn digit_str(d: u8) -> (r: &'static str)
    requires
        d < 10,
    ensures
        r@ =~= seq![digit_char(d as nat)],
{
    proof {
        reveal_strlit("0");
        reveal_strlit("1");
        reveal_strlit("2");
        reveal_strlit("3");
        reveal_strlit("4");
        reveal_strlit("5");
        reveal_strlit("6");
        reveal_strlit("7");
        reveal_strlit("8");
        reveal_strlit("9");
    }
    match d {
        0 => "0",
        1 => "1",
        2 => "2",
        3 => "3",
        4 => "4",
        5 => "5",
        6 => "6",
        7 => "7",
        8 => "8",
        _ => "9",
    }
}

/// The digit characters of `ds` read back to front.
spec fn rev_digit_chars(ds: Seq<u8>) -> Seq<char> {
    Seq::new(ds.len(), |i: int| digit_char(ds[ds.len() - 1 - i] as nat))
}

/// Render an unsigned number as its canonical decimal digit string.
pub fn to_decimal_string(n: u64) -> (r: String)
    ensures
        r@ == dec_of(n as nat),
{
    let mut digits: Vec<u8> = Vec::new();
    let mut v: u64 = n;
    while v >= 10
        invariant
            dec_of(n as nat) =~= dec_of(v as nat) + rev_digit_chars(digits@),
            forall|i: int| 0 <= i < digits@.len() ==> digits@[i] < 10,
        decreases v,
    {
        let d: u8 = (v % 10) as u8;
        proof {
            let ds = digits@;
            assert(dec_of(v as nat) =~= dec_of((v / 10) as nat).push(digit_char((v % 10) as nat)));
            assert(rev_digit_chars(ds.push(d)) =~= seq![digit_char(d as nat)] + rev_digit_chars(
                ds,
            ));
            assert(dec_of((v / 10) as nat) + rev_digit_chars(ds.push(d)) =~= dec_of(v as nat)
                + rev_digit_chars(ds));
        }
        digits.push(d);
        v = v / 10;
    }
    proof {
        let ds = digits@;
        assert(rev_digit_chars(ds.push(v as u8)) =~= seq![digit_char(v as nat)] + rev_digit_chars(
            ds,
        ));
        assert(dec_of(v as nat) =~= seq![digit_char(v as nat)]);
        assert(seq![digit_char(v as nat)] + rev_digit_chars(ds) =~= dec_of(v as nat)
            + rev_digit_chars(ds));
    }
    digits.push(v as u8);
    let ghost target = dec_of(n as nat);
    proof {
        assert(target =~= rev_digit_chars(digits@));
    }
    let mut s = String::new();
    let mut i: usize = digits.len();
    while i > 0
        invariant
            i <= digits@.len(),
            target == rev_digit_chars(digits@),
            forall|j: int| 0 <= j < digits@.len() ==> digits@[j] < 10,
            s@ =~= target.take(digits@.len() - i),
        decreases i,
    {
        i = i - 1;
        let part = digit_str(digits[i]);
        proof {
            let k = digits@.len() - 1 - i;
            assert(target.take(k + 1) =~= target.take(k).push(target[k]));
            assert(target[k] == digit_char(digits@[i as int] as nat));
        }
        s.append(part);
    }
    proof {
        assert(target.take(digits@.len() as int) =~= target);
    }
    s
}

} // verus!
