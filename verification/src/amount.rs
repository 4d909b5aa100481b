//! Amounts of money: rounding to four fractional digits, comparison within
//! half a grid step, and writing amounts as decimal text.

use vstd::prelude::*;
use vstd::string::StringExecFns;

verus! {

/// The grid point nearest to `n`, ties going away from zero. Amounts count
/// millionths of a currency unit, so the grid of four fractional digits is
/// the multiples of 100, and half a step of it is 50.
#[verifier::opaque]
pub open spec fn round_spec(n: int) -> int {
    if n >= 0 {
        (n + 50) / 100 * 100
    } else {
        -((-n + 50) / 100 * 100)
    }
}

/// `n` lies on the four-digit grid.
#[verifier::opaque]
pub open spec fn on_grid(n: int) -> bool {
    n % 100 == 0
}

/// `amount` is positive, or so close to zero that it counts as zero.
pub open spec fn is_non_negative(amount: int) -> bool {
    amount > 0 || -50 < amount < 50
}

/// `amount` is below `available`, or so close to it that the two count as
/// equal.
pub open spec fn is_covered(amount: int, available: int) -> bool {
    amount < available || -50 < amount - available < 50
}

/// Rounds an amount to four fractional digits, half away from zero.
pub fn round(n: i128) -> (r: i128)
    ensures
        r == round_spec(n as int),
{
    reveal(round_spec);
    if n >= 0 {
        let q: i128 = n / 100;
        let rest: i128 = n % 100;
        if rest >= 50 {
            (q + 1) * 100
        } else {
            q * 100
        }
    } else {
        // -n may not fit, -(n + 1) always does
        let m: i128 = -(n + 1);
        let q: i128 = m / 100;
        let rest: i128 = m % 100;
        if rest >= 49 {
            -((q + 1) * 100)
        } else {
            -(q * 100)
        }
    }
}

/// Rounding moves an amount by at most half a step and lands on the grid;
/// an amount already on the grid stays where it is.
pub proof fn lemma_round_nearest(n: int)
    ensures
        on_grid(round_spec(n)),
        -50 <= round_spec(n) - n <= 50,
        on_grid(n) ==> round_spec(n) == n,
        round_spec(round_spec(n)) == round_spec(n),
        round_spec(-n) == -round_spec(n),
{
    reveal(on_grid);
    reveal(round_spec);
    let m = if n >= 0 {
        n
    } else {
        -n
    };
    let q = (m + 50) / 100;
    assert(100 * q <= m + 50 < 100 * q + 100);
    assert((q * 100) % 100 == 0) by {
        lemma_multiple_on_grid(q);
    }
    assert((-(q * 100)) % 100 == 0) by {
        lemma_multiple_on_grid(-q);
    }
    assert((q * 100 + 50) / 100 == q);
    if m % 100 == 0 {
        assert(q * 100 == m);
    }
}

/// The grid points are the multiples of one step.
pub proof fn lemma_multiple_on_grid(k: int)
    ensures
        on_grid(100 * k),
        on_grid(k * 100),
        (100 * k) % 100 == 0,
        (100 * k) / 100 == k,
{
    reveal(on_grid);
}

/// Sums, differences and negations of grid points are grid points.
pub proof fn lemma_grid_arithmetic(a: int, b: int)
    requires
        on_grid(a),
        on_grid(b),
    ensures
        on_grid(a + b),
        on_grid(a - b),
        on_grid(-a),
        on_grid(0),
{
    reveal(on_grid);
    let x = a / 100;
    let y = b / 100;
    assert(a == 100 * x);
    assert(b == 100 * y);
    assert(a + b == 100 * (x + y));
    assert(a - b == 100 * (x - y));
    assert(-a == 100 * (-x));
    lemma_multiple_on_grid(x + y);
    lemma_multiple_on_grid(x - y);
    lemma_multiple_on_grid(-x);
}

/// Rounding never leaves the range of a signed 64-bit amount.
pub proof fn lemma_round_fits_i64(n: i64)
    ensures
        i64::MIN <= round_spec(n as int) <= i64::MAX,
{
    reveal(round_spec);
    let m: int = if n >= 0 {
        n as int
    } else {
        -(n as int)
    };
    let q = (m + 50) / 100;
    assert(100 * q <= m + 50);
    assert(q <= 92233720368547758);
}

/// Millionths in one currency unit.
pub const UNIT: u128 = 1_000_000;

/// The character of a decimal digit.
pub open spec fn digit(d: nat) -> char {
    if d == 0 {
        '0'
    } else if d == 1 {
        '1'
    } else if d == 2 {
        '2'
    } else if d == 3 {
        '3'
    } else if d == 4 {
        '4'
    } else if d == 5 {
        '5'
    } else if d == 6 {
        '6'
    } else if d == 7 {
        '7'
    } else if d == 8 {
        '8'
    } else {
        '9'
    }
}

/// A natural number in decimal, without leading zeros.
pub open spec fn number_text(n: nat) -> Seq<char>
    decreases n,
{
    if n < 10 {
        seq![digit(n)]
    } else {
        number_text(n / 10).push(digit(n % 10))
    }
}

/// The first `width` digits after the decimal point of `rest` millionths,
/// where `rest` is less than a unit; trailing zeros are left out.
pub open spec fn fraction_text(rest: nat, width: nat) -> Seq<char>
    decreases width,
{
    if rest == 0 || width == 0 {
        Seq::empty()
    } else {
        seq![digit(rest / 100_000)] + fraction_text(
            ((rest % 100_000) * 10) as nat,
            (width - 1) as nat,
        )
    }
}

/// The magnitude of an amount.
pub open spec fn magnitude(amount: int) -> nat {
    if amount < 0 {
        (-amount) as nat
    } else {
        amount as nat
    }
}

/// An amount of millionths written in currency units: a minus sign if it is
/// negative, the whole units, and, unless the fraction is zero, a point and
/// the fraction without trailing zeros.
pub open spec fn amount_text(amount: int) -> Seq<char> {
    let m = magnitude(amount);
    let sign = if amount < 0 {
        seq!['-']
    } else {
        Seq::empty()
    };
    let fraction = if m % 1_000_000 == 0 {
        Seq::empty()
    } else {
        seq!['.'] + fraction_text(m % 1_000_000, 6)
    };
    sign + number_text(m / 1_000_000) + fraction
}

/// The one-character string of a decimal digit.
fn digit_str(d: u128) -> (s: &'static str)
    requires
        d < 10,
    ensures
        s@ == seq![digit(d as nat)],
{
    proof {
        reveal_strlit("0");
        reveal_strlit("1");
        reveal_strlit("2");
        reveal_strlit("3");
        reveal_strlit("4");
        reveal_strlit("5");
        reveal_strlit("6");
        reveal_strlit("7");
        reveal_strlit("8");
        reveal_strlit("9");
    }
    let s = if d == 0 {
        "0"
    } else if d == 1 {
        "1"
    } else if d == 2 {
        "2"
    } else if d == 3 {
        "3"
    } else if d == 4 {
        "4"
    } else if d == 5 {
        "5"
    } else if d == 6 {
        "6"
    } else if d == 7 {
        "7"
    } else if d == 8 {
        "8"
    } else {
        "9"
    };
    assert(s@ =~= seq![digit(d as nat)]);
    s
}

/// Writes a natural number in decimal at the end of `text`.
pub fn write_number(text: &mut String, n: u128)
    ensures
        final(text)@ == old(text)@ + number_text(n as nat),
    decreases n,
{
    if n >= 10 {
        write_number(text, n / 10);
    }
    text.append(digit_str(n % 10));
    assert(text@ =~= old(text)@ + number_text(n as nat));
}

/// Writes an amount in currency units at the end of `text`.
pub fn write_amount(text: &mut String, amount: i128)
    ensures
        final(text)@ == old(text)@ + amount_text(amount as int),
{
    let m: u128 = if amount < 0 {
        (-(amount + 1)) as u128 + 1
    } else {
        amount as u128
    };
    if amount < 0 {
        text.append("-");
    }
    write_number(text, m / UNIT);
    let mut rest: u128 = m % UNIT;
    if rest != 0 {
        text.append(".");
    }
    let ghost head = text@;
    let ghost fraction = rest as nat;
    let mut width: u8 = 6;
    while rest != 0 && width != 0
        invariant
            text@ + fraction_text(rest as nat, width as nat) == head + fraction_text(fraction, 6),
            rest < UNIT,
        decreases width,
    {
        let ghost so_far = text@;
        text.append(digit_str(rest / 100_000));
        proof {
            assert(text@ + fraction_text(((rest % 100_000) * 10) as nat, (width - 1) as nat)
                =~= so_far + fraction_text(rest as nat, width as nat));
        }
        rest = (rest % 100_000) * 10;
        width = width - 1;
    }
    proof {
        reveal_strlit("-");
        reveal_strlit(".");
        assert("-"@ =~= seq!['-']);
        assert("."@ =~= seq!['.']);
        assert(text@ =~= head + fraction_text(fraction, 6));
        assert(text@ =~= old(text)@ + amount_text(amount as int));
    }
}

/// An amount on the grid is written with four fractional digits at most.
pub proof fn lemma_grid_amount_text(amount: int)
    requires
        on_grid(amount),
    ensures
        fraction_text(magnitude(amount) % 1_000_000, 6).len() <= 4,
{
    reveal(on_grid);
    reveal_with_fuel(fraction_text, 6);
    let rest = (magnitude(amount) % 1_000_000) as int;
    assert(rest % 100 == 0);
    let r1 = (rest % 100_000) * 10;
    let r2 = (r1 % 100_000) * 10;
    let r3 = (r2 % 100_000) * 10;
    let r4 = (r3 % 100_000) * 10;
    assert(r1 % 1000 == 0);
    assert(r2 % 10_000 == 0);
    assert(r3 % 100_000 == 0);
    assert(r4 == 0);
}

} // verus!
