//! Numbers as text: decimal for people, fixed-width hexadecimal for table keys.

use vstd::prelude::*;
use vstd::string::*;

verus! {

/// The digit for `d`, which is below sixteen.
pub open spec fn digit_char(d: int) -> char {
    if d < 10 {
        (48 + d) as char
    } else {
        (87 + d) as char
    }
}

/// `n` in decimal, without leading zeros.
pub open spec fn decimal(n: nat) -> Seq<char>
    decreases n,
{
    if n < 10 {
        seq![digit_char(n as int)]
    } else {
        decimal(n / 10).push(digit_char((n % 10) as int))
    }
}

/// The last `width` hexadecimal digits of `n`.
pub open spec fn hex(n: nat, width: nat) -> Seq<char>
    decreases width,
{
    if width == 0 {
        Seq::empty()
    } else {
        hex(n / 16, (width - 1) as nat).push(digit_char((n % 16) as int))
    }
}

/// How many numbers `width` hexadecimal digits can write.
pub open spec fn hex_range(width: nat) -> nat
    decreases width,
{
    if width == 0 {
        1
    } else {
        16 * hex_range((width - 1) as nat)
    }
}

pub proof fn lemma_hex_len(n: nat, width: nat)
    ensures
        hex(n, width).len() == width,
    decreases width,
{
    if width > 0 {
        lemma_hex_len(n / 16, (width - 1) as nat);
    }
}

/// Numbers that fit in `width` digits are told apart by them.
pub proof fn lemma_hex_faithful(a: nat, b: nat, width: nat)
    requires
        a < hex_range(width),
        b < hex_range(width),
        hex(a, width) == hex(b, width),
    ensures
        a == b,
    decreases width,
{
    if width > 0 {
        let w = (width - 1) as nat;
        let (x, y) = (hex(a / 16, w), hex(b / 16, w));
        let (c, d) = (digit_char((a % 16) as int), digit_char((b % 16) as int));
        assert(x.push(c).drop_last() =~= x);
        assert(y.push(d).drop_last() =~= y);
        assert(x.push(c).last() == c);
        assert(y.push(d).last() == d);
        lemma_hex_faithful(a / 16, b / 16, w);
        assert(a % 16 == b % 16);
    }
}

pub proof fn lemma_hex_ranges()
    ensures
        hex_range(4) == 0x1_0000,
        hex_range(8) == 0x1_0000_0000,
        hex_range(16) == 0x1_0000_0000_0000_0000,
        hex_range(32) == 0x1_0000_0000_0000_0000_0000_0000_0000_0000,
{
    reveal_with_fuel(hex_range, 33);
}

/// One digit, as text.
fn digit(d: u8) -> (r: &'static str)
    requires
        d < 16,
    ensures
        r@ == seq![digit_char(d as int)],
{
    proof {
        reveal_strlit("0");
        reveal_strlit("1");
        reveal_strlit("2");
        reveal_strlit("3");
        reveal_strlit("4");
        reveal_strlit("5");
        reveal_strlit("6");
        reveal_strlit("7");
        reveal_strlit("8");
        reveal_strlit("9");
        reveal_strlit("a");
        reveal_strlit("b");
        reveal_strlit("c");
        reveal_strlit("d");
        reveal_strlit("e");
        reveal_strlit("f");
    }
    match d {
        0 => "0",
        1 => "1",
        2 => "2",
        3 => "3",
        4 => "4",
        5 => "5",
        6 => "6",
        7 => "7",
        8 => "8",
        9 => "9",
        10 => "a",
        11 => "b",
        12 => "c",
        13 => "d",
        14 => "e",
        _ => "f",
    }
}

/// `n` in decimal, without leading zeros.
pub fn decimal_text(n: u64) -> (r: String)
    ensures
        r@ == decimal(n as nat),
    decreases n,
{
    if n < 10 {
        let r = digit(n as u8).to_owned();
        r
    } else {
        let mut r = decimal_text(n / 10);
        r.append(digit((n % 10) as u8));
        assert(r@ =~= decimal(n as nat));
        r
    }
}

/// The last `width` hexadecimal digits of `n`.
pub fn hex_text(n: u128, width: usize) -> (r: String)
    ensures
        r@ == hex(n as nat, width as nat),
{
    let mut r = String::new();
    let mut rest: u128 = n;
    let mut left: usize = width;
    assert(hex(n as nat, width as nat) + r@ =~= hex(n as nat, width as nat));
    while left > 0
        invariant
            hex(n as nat, width as nat) == hex(rest as nat, left as nat) + r@,
        decreases left,
    {
        let mut longer = digit((rest % 16) as u8).to_owned();
        longer.append(r.as_str());
        assert(hex(rest as nat, left as nat) + r@ =~= hex((rest / 16) as nat, (left - 1) as nat)
            + longer@);
        r = longer;
        rest = rest / 16;
        left = left - 1;
    }
    assert(hex(rest as nat, 0) + r@ =~= r@);
    r
}

/// The digits of a number in decimal: the one with `i` others behind it is the digit that stands
/// for ten to the power `i`. There are no more digits than the number needs, and at least one.
pub proof fn law_decimal_digits(n: nat, i: nat)
    ensures
        decimal(n).len() >= 1,
        i < decimal(n).len() ==> decimal(n)[decimal(n).len() - 1 - i] == (48 + (n as int
            / vstd::arithmetic::power::pow(10, i)) % 10) as char,
        n < vstd::arithmetic::power::pow(10, decimal(n).len()),
        n == 0 ==> decimal(n).len() == 1,
        n > 0 ==> vstd::arithmetic::power::pow(10, (decimal(n).len() - 1) as nat) <= n,
    decreases n,
{
    reveal(vstd::arithmetic::power::pow);
    vstd::arithmetic::power::lemma_pow0(10);
    vstd::arithmetic::power::lemma_pow1(10);
    if n >= 10 {
        let less = if i > 0 {
            (i - 1) as nat
        } else {
            0
        };
        let (x, d) = (decimal(n / 10), digit_char((n % 10) as int));
        law_decimal_digits(n / 10, less);
        assert(x.push(d).last() == d);
        let top = vstd::arithmetic::power::pow(10, (x.len() - 1) as nat);
        assert(vstd::arithmetic::power::pow(10, x.len()) == 10 * top);
        assert(vstd::arithmetic::power::pow(10, x.len() + 1) == 10 * vstd::arithmetic::power::pow(
            10,
            x.len(),
        ));
        if i > 0 {
            let p = vstd::arithmetic::power::pow(10, less);
            vstd::arithmetic::power::lemma_pow_positive(10, less);
            assert(vstd::arithmetic::power::pow(10, i) == 10 * p);
            vstd::arithmetic::div_mod::lemma_div_denominator(n as int, 10, p);
            if i < x.len() + 1 {
                assert(x.push(d)[x.len() - i] == x[x.len() - 1 - less]);
            }
        }
    }
}

/// The digits of a number in hexadecimal: the one with `i` others behind it is the digit, `0` to
/// `9` or `a` to `f`, that stands for sixteen to the power `i`.
pub proof fn law_hex_digits(n: nat, width: nat, i: nat)
    requires
        i < width,
    ensures
        hex(n, width).len() == width,
        ({
            let d = (n as int / vstd::arithmetic::power::pow(16, i)) % 16;
            hex(n, width)[width - 1 - i] == if d < 10 {
                (48 + d) as char
            } else {
                (87 + d) as char
            }
        }),
    decreases width,
{
    lemma_hex_len(n, width);
    lemma_hex_len(n / 16, (width - 1) as nat);
    if i == 0 {
        vstd::arithmetic::power::lemma_pow0(16);
    } else {
        let less = (i - 1) as nat;
        law_hex_digits(n / 16, (width - 1) as nat, less);
        reveal(vstd::arithmetic::power::pow);
        let p = vstd::arithmetic::power::pow(16, less);
        vstd::arithmetic::power::lemma_pow_positive(16, less);
        assert(vstd::arithmetic::power::pow(16, i) == 16 * p);
        vstd::arithmetic::div_mod::lemma_div_denominator(n as int, 16, p);
        assert(hex(n, width)[width - 1 - i] == hex(n / 16, (width - 1) as nat)[width - 1 - i]);
    }
}

} // verus!
