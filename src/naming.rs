//! Names of the part files: `{prefix}-{index}.gz`, the index in decimal,
//! zero-padded to at least eight digits.

use vstd::prelude::*;
use vstd::string::StringExecFns;

verus! {

/// The decimal digit character for `d < 10`.
pub open spec fn digit_char(d: nat) -> char {
    if d == 0 { '0' }
    else if d == 1 { '1' }
    else if d == 2 { '2' }
    else if d == 3 { '3' }
    else if d == 4 { '4' }
    else if d == 5 { '5' }
    else if d == 6 { '6' }
    else if d == 7 { '7' }
    else if d == 8 { '8' }
    else { '9' }
}

/// The last `k` decimal digits of `n`, most significant first.
pub open spec fn low_digits(n: nat, k: nat) -> Seq<char>
    decreases k,
{
    if k == 0 {
        Seq::empty()
    } else {
        low_digits(n / 10, (k - 1) as nat) + seq![digit_char(n % 10)]
    }
}

/// How many digits an index is written with: eight, or more when it needs more.
pub open spec fn index_width(n: nat) -> nat {
    if n < 100_000_000 { 8 }
    else if n < 1_000_000_000 { 9 }
    else { 10 }
}

/// The zero-padded decimal form of a part index.
pub open spec fn index_digits(n: nat) -> Seq<char> {
    low_digits(n, index_width(n))
}

/// The file name of part `part` under `prefix`.
pub open spec fn part_filename(prefix: Seq<char>, part: nat) -> Seq<char> {
    prefix + seq!['-'] + index_digits(part) + seq!['.', 'g', 'z']
}

/// The decimal digits of `n`, without leading zeros.
pub open spec fn decimal(n: nat) -> Seq<char>
    decreases n,
{
    if n < 10 {
        seq![digit_char(n)]
    } else {
        decimal(n / 10) + seq![digit_char(n % 10)]
    }
}

/// `k` zero digits.
pub open spec fn zeros(k: nat) -> Seq<char> {
    Seq::new(k, |i: int| '0')
}

pub open spec fn pow10(k: nat) -> nat
    decreases k,
{
    if k == 0 { 1 } else { 10 * pow10((k - 1) as nat) }
}

proof fn lemma_low_digits_of_zero(k: nat)
    ensures
        low_digits(0, k) == zeros(k),
    decreases k,
{
    if k > 0 {
        lemma_low_digits_of_zero((k - 1) as nat);
        assert(low_digits(0, k) =~= zeros(k));
    }
}

proof fn lemma_low_digits_padded(n: nat, k: nat)
    requires
        k >= decimal(n).len(),
    ensures
        low_digits(n, k) == zeros((k - decimal(n).len()) as nat) + decimal(n),
    decreases k,
{
    if n < 10 {
        lemma_low_digits_of_zero((k - 1) as nat);
        assert(low_digits(n, k) =~= zeros((k - 1) as nat) + decimal(n));
    } else {
        lemma_low_digits_padded(n / 10, (k - 1) as nat);
        assert(low_digits(n, k) =~= zeros((k - decimal(n).len()) as nat) + decimal(n));
    }
}

proof fn lemma_pow10_positive(k: nat)
    ensures
        pow10(k) >= 1,
        k >= 1 ==> pow10(k) >= 10,
    decreases k,
{
    if k > 0 {
        lemma_pow10_positive((k - 1) as nat);
    }
}

proof fn lemma_decimal_len(n: nat, k: nat)
    requires
        k >= 1,
    ensures
        (decimal(n).len() <= k) == (n < pow10(k)),
    decreases n,
{
    lemma_pow10_positive(k);
    if n >= 10 {
        if k == 1 {
            assert(decimal(n).len() == decimal(n / 10).len() + 1);
            assert(pow10(1) == 10) by {
                reveal_with_fuel(pow10, 2);
            }
        } else {
            lemma_decimal_len(n / 10, (k - 1) as nat);
            assert((n / 10 < pow10((k - 1) as nat)) == (n < pow10(k)));
        }
    }
}

/// The index in a file name is the decimal form of the index, with zeros in
/// front up to eight digits, and never cut short.
pub proof fn lemma_index_digits_padded(n: nat)
    requires
        n <= u32::MAX,
    ensures
        index_digits(n) == zeros((index_width(n) - decimal(n).len()) as nat) + decimal(n),
        index_width(n) == if decimal(n).len() < 8 { 8 } else { decimal(n).len() },
{
    assert(pow10(8) == 100_000_000 && pow10(9) == 1_000_000_000 && pow10(10)
        == 10_000_000_000) by {
        reveal_with_fuel(pow10, 11);
    }
    lemma_decimal_len(n, 7);
    lemma_decimal_len(n, 8);
    lemma_decimal_len(n, 9);
    lemma_decimal_len(n, 10);
    lemma_low_digits_padded(n, index_width(n));
}

fn digit_str(d: u32) -> (r: &'static str)
    requires
        d < 10,
    ensures
        r@ == seq![digit_char(d as nat)],
{
    proof {
        reveal_strlit("0");
        reveal_strlit("1");
        reveal_strlit("2");
        reveal_strlit("3");
        reveal_strlit("4");
        reveal_strlit("5");
        reveal_strlit("6");
        reveal_strlit("7");
        reveal_strlit("8");
        reveal_strlit("9");
    }
    match d {
        0 => "0",
        1 => "1",
        2 => "2",
        3 => "3",
        4 => "4",
        5 => "5",
        6 => "6",
        7 => "7",
        8 => "8",
        _ => "9",
    }
}

fn push_low_digits(s: &mut String, n: u32, k: u32)
    ensures
        final(s)@ == old(s)@ + low_digits(n as nat, k as nat),
    decreases k,
{
    if k > 0 {
        push_low_digits(s, n / 10, k - 1);
        s.append(digit_str(n % 10));
        assert(final(s)@ =~= old(s)@ + low_digits(n as nat, k as nat));
    }
}

/// The name of the file that holds part `part`, e.g. `out-00000003.gz`.
pub fn get_part_filename(prefix: &str, part: u32) -> (r: String)
    ensures
        r@ == part_filename(prefix@, part as nat),
{
    let mut s = String::from_str(prefix);
    proof {
        reveal_strlit("-");
        reveal_strlit(".gz");
    }
    s.append("-");
    let width: u32 = if part < 100_000_000 {
        8
    } else if part < 1_000_000_000 {
        9
    } else {
        10
    };
    push_low_digits(&mut s, part, width);
    s.append(".gz");
    assert(s@ =~= part_filename(prefix@, part as nat));
    s
}

} // verus!
