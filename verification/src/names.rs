//! Decimal numerals and the file names that map and reduce tasks exchange.
use vstd::prelude::*;

verus! {

/// The character of a decimal digit.
pub open spec fn digit_char(d: nat) -> char {
    if d == 0 { '0' }
    else if d == 1 { '1' }
    else if d == 2 { '2' }
    else if d == 3 { '3' }
    else if d == 4 { '4' }
    else if d == 5 { '5' }
    else if d == 6 { '6' }
    else if d == 7 { '7' }
    else if d == 8 { '8' }
    else { '9' }
}

/// The decimal numeral of a natural number, without leading zeros.
pub open spec fn decimal(n: nat) -> Seq<char>
    decreases n,
{
    if n < 10 {
        seq![digit_char(n)]
    } else {
        decimal(n / 10).push(digit_char(n % 10))
    }
}

/// The decimal numeral of an integer, with a minus sign when it is negative.
pub open spec fn signed_decimal(n: int) -> Seq<char> {
    if n < 0 {
        seq!['-'] + decimal((-n) as nat)
    } else {
        decimal(n as nat)
    }
}

/// `mr-<a>-<b>`: the name of the intermediate file that map task `a` writes for
/// reduce task `b`.
pub open spec fn file_name(a: Seq<char>, b: Seq<char>) -> Seq<char> {
    seq!['m', 'r', '-'] + a + seq!['-'] + b
}

/// `mr-out-<n>`: the name of the file that reduce task `n` writes.
pub open spec fn output_name(n: Seq<char>) -> Seq<char> {
    seq!['m', 'r', '-', 'o', 'u', 't', '-'] + n
}

/// A decimal digit character.
pub open spec fn is_digit(c: char) -> bool {
    '0' <= c && c <= '9'
}

/// A decimal numeral is a nonempty string of digits, of one digit exactly for the
/// numbers below ten.
pub proof fn lemma_decimal_digits(n: nat)
    ensures
        decimal(n).len() >= 1,
        n < 10 <==> decimal(n).len() == 1,
        forall|k: int| 0 <= k < decimal(n).len() ==> is_digit(#[trigger] decimal(n)[k]),
    decreases n,
{
    if n >= 10 {
        lemma_decimal_digits(n / 10);
        let d = decimal(n / 10);
        assert forall|k: int| 0 <= k < decimal(n).len() implies is_digit(#[trigger] decimal(n)[k]) by {
            if k < d.len() {
                assert(decimal(n)[k] == d[k]);
            }
        }
    }
}

/// The value of a decimal digit character (zero for any other character).
pub open spec fn digit_value(c: char) -> nat {
    if c == '1' { 1 }
    else if c == '2' { 2 }
    else if c == '3' { 3 }
    else if c == '4' { 4 }
    else if c == '5' { 5 }
    else if c == '6' { 6 }
    else if c == '7' { 7 }
    else if c == '8' { 8 }
    else if c == '9' { 9 }
    else { 0 }
}

/// The number that a string of decimal digits denotes, read from the left.
pub open spec fn numeral_value(s: Seq<char>) -> nat
    decreases s.len(),
{
    if s.len() == 0 {
        0
    } else {
        numeral_value(s.drop_last()) * 10 + digit_value(s.last())
    }
}

/// Each digit character is read back as its digit.
proof fn lemma_digit_value(d: nat)
    requires
        d < 10,
    ensures
        digit_value(digit_char(d)) == d,
{
}

/// Reading the decimal numeral of `n` gives `n` back; the numeral has no leading
/// zero.
pub proof fn law_decimal_value(n: nat)
    ensures
        numeral_value(decimal(n)) == n,
        decimal(n).len() > 1 ==> decimal(n)[0] != '0',
    decreases n,
{
    lemma_decimal_digits(n);
    if n < 10 {
        lemma_digit_value(n);
        let d = decimal(n);
        assert(d.drop_last() =~= Seq::<char>::empty());
        assert(numeral_value(d.drop_last()) == 0);
        assert(d.last() == digit_char(n));
    } else {
        lemma_digit_value(n % 10);
        law_decimal_value(n / 10);
        lemma_decimal_digits(n / 10);
        let d = decimal(n);
        assert(d.drop_last() =~= decimal(n / 10));
        assert(d.last() == digit_char(n % 10));
        assert(numeral_value(d) == numeral_value(d.drop_last()) * 10 + digit_value(d.last()));
        assert(numeral_value(d) == (n / 10) * 10 + n % 10);
        assert(n == (n / 10) * 10 + n % 10) by (nonlinear_arith);
        if decimal(n / 10).len() == 1 {
            assert(n / 10 >= 1);
            assert(decimal(n / 10)[0] == digit_char(n / 10));
        }
        assert(decimal(n)[0] == decimal(n / 10)[0]);
    }
}

/// Different numbers have different numerals.
pub proof fn law_decimal_injective(a: nat, b: nat)
    requires
        decimal(a) == decimal(b),
    ensures
        a == b,
    decreases a,
{
    lemma_decimal_digits(a);
    lemma_decimal_digits(b);
    if a >= 10 && b >= 10 {
        assert(decimal(a).drop_last() =~= decimal(a / 10));
        assert(decimal(b).drop_last() =~= decimal(b / 10));
        law_decimal_injective(a / 10, b / 10);
        assert(decimal(a).last() == digit_char(a % 10));
        assert(decimal(b).last() == digit_char(b % 10));
    } else if a < 10 && b < 10 {
        assert(decimal(a)[0] == digit_char(a));
        assert(decimal(b)[0] == digit_char(b));
    }
}

/// Intermediate file names of different map and reduce task numbers are different:
/// no two map tasks, and no two reduce tasks of one map task, share a file.
pub proof fn law_file_names_distinct(a: nat, b: nat, c: nat, d: nat)
    requires
        file_name(decimal(a), decimal(b)) == file_name(decimal(c), decimal(d)),
    ensures
        a == c,
        b == d,
{
    let (x1, y1, x2, y2) = (decimal(a), decimal(b), decimal(c), decimal(d));
    lemma_decimal_digits(a);
    lemma_decimal_digits(b);
    lemma_decimal_digits(c);
    lemma_decimal_digits(d);
    let f1 = file_name(x1, y1);
    let f2 = file_name(x2, y2);
    assert(forall|k: int| 0 <= k < x1.len() ==> f1[3 + k] == x1[k]);
    assert(forall|k: int| 0 <= k < x2.len() ==> f2[3 + k] == x2[k]);
    assert(f1[3 + x1.len() as int] == '-');
    assert(f2[3 + x2.len() as int] == '-');
    if x1.len() < x2.len() {
        assert(is_digit(x2[x1.len() as int]));
        assert(false);
    }
    if x2.len() < x1.len() {
        assert(is_digit(x1[x2.len() as int]));
        assert(false);
    }
    assert(x1 =~= x2) by {
        assert forall|k: int| 0 <= k < x1.len() implies x1[k] == x2[k] by {
            assert(f1[3 + k] == f2[3 + k]);
        }
    }
    assert(x1.len() == x2.len());
    assert(f1.len() == 4 + x1.len() + y1.len());
    assert(f2.len() == 4 + x2.len() + y2.len());
    assert(y1.len() == y2.len());
    assert(y1 =~= y2) by {
        assert forall|k: int| 0 <= k < y1.len() implies y1[k] == y2[k] by {
            assert(f1[4 + x1.len() + k] == y1[k]);
            assert(f2[4 + x2.len() + k] == y2[k]);
        }
    }
    law_decimal_injective(a, c);
    law_decimal_injective(b, d);
}

fn digit_str(d: u64) -> (s: &'static str)
    requires
        d < 10,
    ensures
        s@ == seq![digit_char(d as nat)],
{
    proof {
        reveal_strlit("0");
        reveal_strlit("1");
        reveal_strlit("2");
        reveal_strlit("3");
        reveal_strlit("4");
        reveal_strlit("5");
        reveal_strlit("6");
        reveal_strlit("7");
        reveal_strlit("8");
        reveal_strlit("9");
    }
    if d == 0 { "0" }
    else if d == 1 { "1" }
    else if d == 2 { "2" }
    else if d == 3 { "3" }
    else if d == 4 { "4" }
    else if d == 5 { "5" }
    else if d == 6 { "6" }
    else if d == 7 { "7" }
    else if d == 8 { "8" }
    else { "9" }
}

/// The decimal numeral of `n`.
pub fn decimal_string(n: u64) -> (s: String)
    ensures
        s@ == decimal(n as nat),
    decreases n,
{
    if n < 10 {
        String::from_str(digit_str(n))
    } else {
        let mut s = decimal_string(n / 10);
        s.append(digit_str(n % 10));
        s
    }
}

/// The decimal numeral of `n`, with a minus sign when it is negative.
pub fn signed_decimal_string(n: i8) -> (s: String)
    ensures
        s@ == signed_decimal(n as int),
{
    if n < 0 {
        proof {
            reveal_strlit("-");
        }
        let m: i16 = n as i16;
        let magnitude: u64 = (-m) as u64;
        let digits = decimal_string(magnitude);
        let mut s = String::from_str("-");
        s.append(digits.as_str());
        s
    } else {
        decimal_string(n as u64)
    }
}

/// `mr-<a>-<b>`.
pub fn file_name_string(a: &String, b: &String) -> (s: String)
    ensures
        s@ == file_name(a@, b@),
{
    proof {
        reveal_strlit("mr-");
        reveal_strlit("-");
    }
    let mut s = String::from_str("mr-");
    s.append(a.as_str());
    s.append("-");
    s.append(b.as_str());
    proof {
        assert(s@ =~= file_name(a@, b@));
    }
    s
}

/// The name of the intermediate file that map task `map_task` writes for reduce task
/// `reduce_task`.
pub fn intermediate_file_name(map_task: usize, reduce_task: usize) -> (s: String)
    ensures
        s@ == file_name(decimal(map_task as nat), decimal(reduce_task as nat)),
{
    let a = decimal_string(map_task as u64);
    let b = decimal_string(reduce_task as u64);
    file_name_string(&a, &b)
}

/// The name of the file that reduce task `n` writes.
pub fn output_file_name(n: &String) -> (s: String)
    ensures
        s@ == output_name(n@),
{
    proof {
        reveal_strlit("mr-out-");
    }
    let mut s = String::from_str("mr-out-");
    s.append(n.as_str());
    proof {
        assert(s@ =~= output_name(n@));
    }
    s
}

} // verus!
